//! The palette texture materializer: turning an embedded paletted texture
//! into an RGBA buffer with color-key transparency, and the batch report
//! of texture names a map needs but no archive supplied.

use vstd::prelude::*;

use crate::gold_src_30::{GoldSrc30Bsp, Texture};
use crate::wad::{nul_truncate, truncate_name, WadManager};

verus! {

/// Whether an RGB triple is the color key: exactly (0, 0, 255).
pub open spec fn is_color_key(r: u8, g: u8, b: u8) -> bool {
    r == 0 && g == 0 && b == 255
}

/// The red component pixel `i` maps to through the palette.
pub open spec fn pal_r(t: Texture, i: int) -> u8 {
    t.palette@[3 * (t.mip@[i] as int)]
}

/// The green component pixel `i` maps to through the palette.
pub open spec fn pal_g(t: Texture, i: int) -> u8 {
    t.palette@[3 * (t.mip@[i] as int) + 1]
}

/// The blue component pixel `i` maps to through the palette.
pub open spec fn pal_b(t: Texture, i: int) -> u8 {
    t.palette@[3 * (t.mip@[i] as int) + 2]
}

/// Whether pixel `i` hits the color key.
pub open spec fn pixel_is_key(t: Texture, i: int) -> bool {
    is_color_key(pal_r(t, i), pal_g(t, i), pal_b(t, i))
}

/// Maps each stored palette-index byte through the 256-entry palette to
/// an RGBA8 buffer of `width * height` pixels. The color-key rule is the
/// sole transparency mechanism: a pixel whose palette RGB is exactly
/// (0, 0, 255) gets alpha 0 and sets the transparency flag; every other
/// pixel, whatever its RGB, gets alpha 255. Returns the flag and the
/// buffer, in that order.
pub fn parse_texture(texture: &Texture) -> (res: (bool, Vec<u8>))
    requires
        texture.palette@.len() == 768 || texture.mip@.len() == 0,
    ensures
        res.1@.len() == 4 * texture.mip@.len(),
        forall|i: int|
            0 <= i < texture.mip@.len() ==> (#[trigger] res.1@[4 * i]) == pal_r(*texture, i),
        forall|i: int|
            0 <= i < texture.mip@.len() ==> (#[trigger] res.1@[4 * i + 1]) == pal_g(*texture, i),
        forall|i: int|
            0 <= i < texture.mip@.len() ==> (#[trigger] res.1@[4 * i + 2]) == pal_b(*texture, i),
        forall|i: int|
            0 <= i < texture.mip@.len() ==> (#[trigger] res.1@[4 * i + 3]) == (
            if pixel_is_key(*texture, i) {
                0u8
            } else {
                255u8
            }),
        res.0 == exists|i: int| 0 <= i < texture.mip@.len() && #[trigger] pixel_is_key(*texture, i),
{
    let mut transparent = false;
    let mut data: Vec<u8> = Vec::new();
    let n = texture.mip.len();
    let mut i: usize = 0;
    while i < n
        invariant
            n == texture.mip@.len(),
            texture.palette@.len() == 768 || n == 0,
            i <= n,
            data@.len() == 4 * i,
            forall|j: int| 0 <= j < i ==> (#[trigger] data@[4 * j]) == pal_r(*texture, j),
            forall|j: int| 0 <= j < i ==> (#[trigger] data@[4 * j + 1]) == pal_g(*texture, j),
            forall|j: int| 0 <= j < i ==> (#[trigger] data@[4 * j + 2]) == pal_b(*texture, j),
            forall|j: int|
                0 <= j < i ==> (#[trigger] data@[4 * j + 3]) == (if pixel_is_key(*texture, j) {
                    0u8
                } else {
                    255u8
                }),
            transparent == exists|j: int| 0 <= j < i && #[trigger] pixel_is_key(*texture, j),
        decreases n - i,
    {
        let idx = texture.mip[i] as usize;
        let r = texture.palette[3 * idx];
        let g = texture.palette[3 * idx + 1];
        let b = texture.palette[3 * idx + 2];
        let key = r == 0 && g == 0 && b == 255;
        data.push(r);
        data.push(g);
        data.push(b);
        data.push(if key {
            0
        } else {
            255
        });
        if key {
            transparent = true;
        }
        proof {
            assert(data@[4 * (i as int)] == pal_r(*texture, i as int));
            assert(data@[4 * (i as int) + 1] == pal_g(*texture, i as int));
            assert(data@[4 * (i as int) + 2] == pal_b(*texture, i as int));
            if key {
                assert(pixel_is_key(*texture, i as int));
            } else {
                assert(!pixel_is_key(*texture, i as int));
                assert(forall|j: int|
                    0 <= j < i + 1 && #[trigger] pixel_is_key(*texture, j) ==> j < i);
            }
        }
        i = i + 1;
    }
    (transparent, data)
}

/// Whether texture `i` of the map is external (no embedded pixel data,
/// first mip offset zero) and its name is absent from the archive table.
pub open spec fn texture_unresolved(bsp: GoldSrc30Bsp, manager: WadManager, i: int) -> bool {
    &&& 0 <= i < bsp.textures@.len()
    &&& bsp.textures@[i].offsets@[0] == 0
    &&& !manager.textures@.contains_key(nul_truncate(bsp.textures@[i].name@))
}

/// Whether `name` occurs in the report.
pub open spec fn name_listed(report: Seq<Vec<u8>>, name: Seq<u8>) -> bool {
    exists|j: int| 0 <= j < report.len() && (#[trigger] report[j])@ == name
}

/// Whether `name` is the NUL-truncated name of some unresolved texture.
pub open spec fn unresolved_name(bsp: GoldSrc30Bsp, manager: WadManager, name: Seq<u8>) -> bool {
    exists|k: int|
        #[trigger] texture_unresolved(bsp, manager, k) && name == nul_truncate(
            bsp.textures@[k].name@,
        )
}

/// The batch report of missing textures: the names the map's texture lump
/// marks as external (first mip offset zero) that the archive table does
/// not supply. Every such name is listed, and nothing else is.
pub fn missing_textures(bsp: &GoldSrc30Bsp, manager: &WadManager) -> (res: Vec<Vec<u8>>)
    ensures
        forall|i: int|
            texture_unresolved(*bsp, *manager, i) ==> name_listed(
                res@,
                nul_truncate((#[trigger] bsp.textures@[i]).name@),
            ),
        forall|j: int|
            0 <= j < res@.len() ==> unresolved_name(*bsp, *manager, (#[trigger] res@[j])@),
{
    let mut report: Vec<Vec<u8>> = Vec::new();
    let n = bsp.textures.len();
    let mut i: usize = 0;
    while i < n
        invariant
            n == bsp.textures@.len(),
            i <= n,
            forall|k: int|
                0 <= k < i && texture_unresolved(*bsp, *manager, k) ==> name_listed(
                    report@,
                    nul_truncate((#[trigger] bsp.textures@[k]).name@),
                ),
            forall|j: int|
                0 <= j < report@.len() ==> unresolved_name(*bsp, *manager, (#[trigger] report@[j])@),
        decreases n - i,
    {
        let t = &bsp.textures[i];
        if t.offsets[0] == 0 {
            let name = truncate_name(&t.name);
            match manager.textures.get(name.as_slice()) {
                Some(_) => {
                    proof {
                        assert(!texture_unresolved(*bsp, *manager, i as int));
                    }
                },
                None => {
                    let ghost prev = report@;
                    let ghost nm = nul_truncate(bsp.textures@[i as int].name@);
                    report.push(name);
                    proof {
                        assert((report@[prev.len() as int])@ == nm);
                        assert(texture_unresolved(*bsp, *manager, i as int));
                        assert(unresolved_name(*bsp, *manager, nm));
                        assert forall|k: int|
                            0 <= k < i + 1 && texture_unresolved(*bsp, *manager, k) implies name_listed(
                            report@,
                            nul_truncate((#[trigger] bsp.textures@[k]).name@),
                        ) by {
                            let nmk = nul_truncate(bsp.textures@[k].name@);
                            if k < i {
                                let j = choose|j: int|
                                    0 <= j < prev.len() && (#[trigger] prev[j])@ == nmk;
                                assert(report@[j] == prev[j]);
                                assert((report@[j])@ == nmk);
                            } else {
                                assert((report@[prev.len() as int])@ == nmk);
                            }
                        }
                        assert forall|j: int|
                            0 <= j < report@.len() implies unresolved_name(
                            *bsp,
                            *manager,
                            (#[trigger] report@[j])@,
                        ) by {
                            if j < prev.len() {
                                assert(report@[j] == prev[j]);
                            } else {
                                assert((report@[j])@ == nm);
                            }
                        }
                    }
                },
            }
        } else {
            proof {
                assert(!texture_unresolved(*bsp, *manager, i as int));
            }
        }
        i = i + 1;
    }
    report
}

} // verus!
