//! What the hardware was measured doing, so the simulation can be held to it.
use vstd::prelude::*;

verus! {

/// Poses per second in tenths, counted: 592 of them in 4.981 seconds. Not 120: the device is
/// configured for 120 and delivers 118.9.
pub const POSE_RATE_DECIHERTZ: u32 = 1189;

/// USB vendor of a Pro 2.
pub const USB_VENDOR_ID: u16 = 0x35CA;

/// USB product of a Pro 2.
pub const USB_PRODUCT_ID: u16 = 0x1301;

/// What the panel comes up in: one 1920x1080 picture, both eyes the same.
pub const MODE_2D: u8 = 0x31;

/// Side-by-side: one 3840x1080 frame, split between the eyes.
pub const MODE_SIDE_BY_SIDE: u8 = 0x32;

/// A display mode as the host sees it. The frame rate is the bit pattern of a single-precision
/// number.
#[derive(Clone, Copy, Debug, PartialEq, Eq, Structural)]
pub struct Mode {
    pub width: u32,
    pub height: u32,
    pub fps: u32,
}

/// Frames per second, as bit patterns: 60.0.
pub const FPS_60: u32 = 0x4270_0000;

/// 59.9402.
pub const FPS_59_9402: u32 = 0x426f_c2c4;

/// 59.940475.
pub const FPS_59_940475: u32 = 0x426f_c30c;

/// What the panel advertises in 2D. There is no wide mode, and nothing above 60 Hz.
pub open spec fn advertised_2d() -> Seq<Mode> {
    seq![
        Mode { width: 1920, height: 1080, fps: FPS_60 },
        Mode { width: 1920, height: 1080, fps: FPS_59_9402 },
        Mode { width: 640, height: 480, fps: FPS_59_940475 },
        Mode { width: 768, height: 480, fps: FPS_59_940475 },
    ]
}

/// What it advertises once switched to side-by-side. The 3840-wide mode exists only here.
pub open spec fn advertised_side_by_side() -> Seq<Mode> {
    seq![
        Mode { width: 3840, height: 1080, fps: FPS_60 },
        Mode { width: 1920, height: 1080, fps: FPS_60 },
    ]
}

/// The modes the panel offers while it is in `mode`.
pub open spec fn advertised(mode: u8) -> Seq<Mode> {
    if mode == MODE_SIDE_BY_SIDE {
        advertised_side_by_side()
    } else {
        advertised_2d()
    }
}

/// The modes the panel offers while it is in `mode`.
pub fn modes_for(mode: u8) -> (modes: Vec<Mode>)
    ensures
        modes@ == advertised(mode),
{
    let modes: Vec<Mode> = if mode == MODE_SIDE_BY_SIDE {
        vec![
            Mode { width: 3840, height: 1080, fps: FPS_60 },
            Mode { width: 1920, height: 1080, fps: FPS_60 },
        ]
    } else {
        vec![
            Mode { width: 1920, height: 1080, fps: FPS_60 },
            Mode { width: 1920, height: 1080, fps: FPS_59_9402 },
            Mode { width: 640, height: 480, fps: FPS_59_940475 },
            Mode { width: 768, height: 480, fps: FPS_59_940475 },
        ]
    };
    assert(modes@ =~= advertised(mode));
    modes
}

/// Side-by-side is the only place where the wide mode exists: anything that picks a mode has to
/// look again after the panel has been switched.
pub proof fn only_side_by_side_is_wide(mode: u8)
    ensures
        (exists|i: int| 0 <= i < advertised(mode).len() && (#[trigger] advertised(mode)[i]).width
            == 3840) <==> mode == MODE_SIDE_BY_SIDE,
{
    if mode == MODE_SIDE_BY_SIDE {
        assert(advertised(mode)[0].width == 3840);
    }
}

} // verus!
