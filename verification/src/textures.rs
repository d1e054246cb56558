//! Procedural texture rules: the per-name seed that keeps randomised
//! textures stable across runs, which generator a thin-wall texture name
//! selects, and the thin-wall textures drawn without randomness.

use vstd::prelude::*;
use crate::strings::same_text;
use crate::canvas::{PixelCanvas, Rgb};
use vstd::string::StringSliceAdditionalSpecFns;

verus! {

/// 32-bit FNV-1a over `bytes`.
pub open spec fn fnv1a(bytes: Seq<u8>) -> u32
    decreases bytes.len(),
{
    if bytes.len() == 0 {
        0x811c_9dc5
    } else {
        (((fnv1a(bytes.drop_last()) ^ (bytes.last() as u32)) as nat * 0x0100_0193nat) % 0x1_0000_0000nat) as u32
    }
}

/// The seed of the texture called `name`: the FNV-1a hash of its bytes.
pub fn seed_for(name: &str) -> (seed: u32)
    ensures
        seed == fnv1a(name.spec_bytes()),
{
    let bytes = name.as_bytes();
    let mut hash: u32 = 0x811c_9dc5;
    let mut i: usize = 0;
    while i < bytes.len()
        invariant
            i <= bytes@.len(),
            bytes@ == name.spec_bytes(),
            hash == fnv1a(bytes@.take(i as int)),
        decreases bytes.len() - i,
    {
        proof {
            assert(bytes@.take(i + 1).drop_last() =~= bytes@.take(i as int));
            assert(bytes@.take(i + 1).last() == bytes@[i as int]);
        }
        hash = (hash ^ bytes[i] as u32).wrapping_mul(0x0100_0193);
        i = i + 1;
    }
    proof {
        assert(bytes@.take(bytes@.len() as int) =~= bytes@);
    }
    hash
}

/// Side length of a thin-wall texture.
pub const THIN_SIZE: usize = 128;

#[derive(Clone, Copy, PartialEq, Eq, Structural, Debug)]
pub enum ThinWallKind {
    StoneThin,
    IronFence,
    WoodFence,
    Railing,
    /// Any other name: plain grey.
    Fallback,
}

pub open spec fn spec_thin_wall_kind(name: Seq<char>) -> ThinWallKind {
    if name == "stone_thin"@ {
        ThinWallKind::StoneThin
    } else if name == "iron_fence"@ {
        ThinWallKind::IronFence
    } else if name == "wood_fence"@ {
        ThinWallKind::WoodFence
    } else if name == "railing"@ {
        ThinWallKind::Railing
    } else {
        ThinWallKind::Fallback
    }
}

/// Which generator draws the thin-wall texture called `name`.
pub fn thin_wall_kind(name: &str) -> (kind: ThinWallKind)
    ensures
        kind == spec_thin_wall_kind(name@),
{
    if same_text(name, "stone_thin") {
        ThinWallKind::StoneThin
    } else if same_text(name, "iron_fence") {
        ThinWallKind::IronFence
    } else if same_text(name, "wood_fence") {
        ThinWallKind::WoodFence
    } else if same_text(name, "railing") {
        ThinWallKind::Railing
    } else {
        ThinWallKind::Fallback
    }
}

/// A grey of level `v`.
pub open spec fn grey(v: u8) -> Rgb {
    Rgb { red: v, green: v, blue: v }
}

/// The iron fence: four vertical bars (a lit left edge and a shadowed
/// right edge) crossed by two horizontal bars (lit top edge), transparent
/// between them.
pub open spec fn iron_fence_pixel(x: int, y: int) -> Option<Rgb> {
    let crossbar = (32 <= y < 40) || (96 <= y < 104);
    let crossbar_top = (32 <= y < 34) || (96 <= y < 98);
    let bar = (20 <= x < 28) || (46 <= x < 54) || (72 <= x < 80) || (98 <= x < 106);
    let bar_left = (20 <= x < 22) || (46 <= x < 48) || (72 <= x < 74) || (98 <= x < 100);
    let bar_right = (26 <= x < 28) || (52 <= x < 54) || (78 <= x < 80) || (104 <= x < 106);
    if crossbar_top {
        Some(grey(0x5a))
    } else if crossbar {
        Some(grey(0x4a))
    } else if bar_left {
        Some(grey(0x66))
    } else if bar_right {
        Some(grey(0x3a))
    } else if bar {
        Some(grey(0x55))
    } else {
        None
    }
}

/// The railing: two horizontal rails (lit top edge, shadowed bottom edge)
/// over four vertical supports, transparent between them.
pub open spec fn railing_pixel(x: int, y: int) -> Option<Rgb> {
    let support = (16 <= x < 20) || (48 <= x < 52) || (80 <= x < 84) || (112 <= x < 116);
    let rail_top = (28 <= y < 30) || (90 <= y < 92);
    let rail_bottom = (36 <= y < 38) || (98 <= y < 100);
    let rail = (28 <= y < 38) || (90 <= y < 100);
    if support {
        Some(grey(0x48))
    } else if rail_top {
        Some(grey(0x66))
    } else if rail_bottom {
        Some(grey(0x38))
    } else if rail {
        Some(grey(0x50))
    } else {
        None
    }
}

/// What a thin-wall canvas shows at each pixel: the given colour opaque,
/// or transparent black.
pub open spec fn shows(canvas: PixelCanvas, pixel: spec_fn(int, int) -> Option<Rgb>) -> bool {
    &&& canvas.wf()
    &&& canvas.spec_width() == THIN_SIZE
    &&& canvas.spec_height() == THIN_SIZE
    &&& forall|x: int, y: int, c: int|
        0 <= x < THIN_SIZE && 0 <= y < THIN_SIZE && 0 <= c < 4 ==> #[trigger] canvas.byte_at(x, y, c) == match pixel(
            x,
            y,
        ) {
            Some(color) => color.channel(c),
            None => 0u8,
        }
}

pub fn generate_iron_fence() -> (canvas: PixelCanvas)
    ensures
        shows(canvas, |x: int, y: int| iron_fence_pixel(x, y)),
{
    let mut canvas = PixelCanvas::new(THIN_SIZE);
    let size = THIN_SIZE as i32;
    canvas.fill_rect(20, 0, 8, size, Rgb { red: 0x55, green: 0x55, blue: 0x55 });
    canvas.fill_rect(20, 0, 2, size, Rgb { red: 0x66, green: 0x66, blue: 0x66 });
    canvas.fill_rect(26, 0, 2, size, Rgb { red: 0x3a, green: 0x3a, blue: 0x3a });
    canvas.fill_rect(46, 0, 8, size, Rgb { red: 0x55, green: 0x55, blue: 0x55 });
    canvas.fill_rect(46, 0, 2, size, Rgb { red: 0x66, green: 0x66, blue: 0x66 });
    canvas.fill_rect(52, 0, 2, size, Rgb { red: 0x3a, green: 0x3a, blue: 0x3a });
    canvas.fill_rect(72, 0, 8, size, Rgb { red: 0x55, green: 0x55, blue: 0x55 });
    canvas.fill_rect(72, 0, 2, size, Rgb { red: 0x66, green: 0x66, blue: 0x66 });
    canvas.fill_rect(78, 0, 2, size, Rgb { red: 0x3a, green: 0x3a, blue: 0x3a });
    canvas.fill_rect(98, 0, 8, size, Rgb { red: 0x55, green: 0x55, blue: 0x55 });
    canvas.fill_rect(98, 0, 2, size, Rgb { red: 0x66, green: 0x66, blue: 0x66 });
    canvas.fill_rect(104, 0, 2, size, Rgb { red: 0x3a, green: 0x3a, blue: 0x3a });
    canvas.fill_rect(0, 32, size, 8, Rgb { red: 0x4a, green: 0x4a, blue: 0x4a });
    canvas.fill_rect(0, 32, size, 2, Rgb { red: 0x5a, green: 0x5a, blue: 0x5a });
    canvas.fill_rect(0, 96, size, 8, Rgb { red: 0x4a, green: 0x4a, blue: 0x4a });
    canvas.fill_rect(0, 96, size, 2, Rgb { red: 0x5a, green: 0x5a, blue: 0x5a });
    canvas
}

pub fn generate_railing() -> (canvas: PixelCanvas)
    ensures
        shows(canvas, |x: int, y: int| railing_pixel(x, y)),
{
    let mut canvas = PixelCanvas::new(THIN_SIZE);
    let size = THIN_SIZE as i32;
    canvas.fill_rect(0, 28, size, 10, Rgb { red: 0x50, green: 0x50, blue: 0x50 });
    canvas.fill_rect(0, 28, size, 2, Rgb { red: 0x66, green: 0x66, blue: 0x66 });
    canvas.fill_rect(0, 36, size, 2, Rgb { red: 0x38, green: 0x38, blue: 0x38 });
    canvas.fill_rect(0, 90, size, 10, Rgb { red: 0x50, green: 0x50, blue: 0x50 });
    canvas.fill_rect(0, 90, size, 2, Rgb { red: 0x66, green: 0x66, blue: 0x66 });
    canvas.fill_rect(0, 98, size, 2, Rgb { red: 0x38, green: 0x38, blue: 0x38 });
    canvas.fill_rect(16, 0, 4, size, Rgb { red: 0x48, green: 0x48, blue: 0x48 });
    canvas.fill_rect(48, 0, 4, size, Rgb { red: 0x48, green: 0x48, blue: 0x48 });
    canvas.fill_rect(80, 0, 4, size, Rgb { red: 0x48, green: 0x48, blue: 0x48 });
    canvas.fill_rect(112, 0, 4, size, Rgb { red: 0x48, green: 0x48, blue: 0x48 });
    canvas
}

/// The texture of an unknown thin-wall name: solid grey.
pub fn generate_fallback() -> (canvas: PixelCanvas)
    ensures
        shows(canvas, |x: int, y: int| Some(grey(0x88))),
{
    let mut canvas = PixelCanvas::new(THIN_SIZE);
    let size = THIN_SIZE as i32;
    canvas.fill_rect(0, 0, size, size, Rgb { red: 0x88, green: 0x88, blue: 0x88 });
    canvas
}

} // verus!
