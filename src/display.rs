use vstd::prelude::*;
use crate::util::{clamp, clamp_spec};
use crate::worker::DImageLoaded;
use vstd::pervasive::VecAdditionalExecFns;
use vstd::arithmetic::div_mod::{lemma_div_is_ordered, lemma_div_multiples_vanish, lemma_div_pos_is_pos};

verus! {

// Lengths are in thousandths of a pixel, scales and borders in thousandths,
// tile positions along a row in thousandths of a tile, times in microseconds.

/// Time constant of the exponential smoothing (0.1 s).
pub const SMOOTHING_MICROS: u64 = 100_000;

/// Scale of a tile at rest (1.0).
pub const SCALE_ONE: i64 = 1000;

/// Scale that the selected tile grows to (1.2).
pub const ZOOM_CEILING: i64 = 1200;

/// Border drawn around the selected tile (0.01).
pub const SELECTED_BORDER: i64 = 10;

/// Height of a row's title (200 px).
pub const TITLE_HEIGHT: u32 = 200_000;

/// Height of a row of tiles (280 px).
pub const ROW_HEIGHT: u32 = 280_000;

/// Horizontal distance between tiles (625 px).
pub const TILE_WIDTH: u32 = 625_000;

/// The tiles are shown once the row at this index holds more than
/// `READY_TILE_COUNT` tiles.
pub const READY_ROW: usize = 1;

pub const READY_TILE_COUNT: usize = 3;

pub open spec fn sat_i64(x: int) -> int {
    clamp_spec(x, i64::MIN as int, i64::MAX as int)
}

/// One tick of first-order smoothing: `current` moves toward `target` by the
/// fraction `dt / SMOOTHING_MICROS` of the distance, rounded toward `current`.
pub open spec fn approach_spec(current: int, target: int, dt: int) -> int {
    if target >= current {
        current + (target - current) * dt / (SMOOTHING_MICROS as int)
    } else {
        current - (current - target) * dt / (SMOOTHING_MICROS as int)
    }
}

/// `approach_spec`, kept within `i64`.
pub fn approach(current: i64, target: i64, dt: u64) -> (r: i64)
    ensures
        r == sat_i64(approach_spec(current as int, target as int, dt as int)),
{
    if target >= current {
        let d: u128 = (target as i128 - current as i128) as u128;
        proof {
            assert(d * (dt as u128) <= 0xffff_ffff_ffff_ffff * 0xffff_ffff_ffff_ffffu128) by (nonlinear_arith)
                requires
                    d <= 0xffff_ffff_ffff_ffffu128,
                    dt <= 0xffff_ffff_ffff_ffffu64,
            ;
        }
        let step: u128 = d * (dt as u128) / (SMOOTHING_MICROS as u128);
        if step > (i64::MAX as i128 - current as i128) as u128 {
            i64::MAX
        } else {
            (current as i128 + step as i128) as i64
        }
    } else {
        let d: u128 = (current as i128 - target as i128) as u128;
        proof {
            assert(d * (dt as u128) <= 0xffff_ffff_ffff_ffff * 0xffff_ffff_ffff_ffffu128) by (nonlinear_arith)
                requires
                    d <= 0xffff_ffff_ffff_ffffu128,
                    dt <= 0xffff_ffff_ffff_ffffu64,
            ;
        }
        let step: u128 = d * (dt as u128) / (SMOOTHING_MICROS as u128);
        if step > (current as i128 - i64::MIN as i128) as u128 {
            i64::MIN
        } else {
            (current as i128 - step as i128) as i64
        }
    }
}

/// A position in thousandths of a pixel.
#[derive(Clone, Copy, PartialEq, Eq, Structural, Debug)]
pub struct Vec2 {
    pub x: i64,
    pub y: i64,
}

/// Where the view is and where it is heading.
#[derive(Clone, Copy, PartialEq, Eq, Structural, Debug)]
pub struct Viewport {
    pub pos: Vec2,
    pub desired_pos: Vec2,
}

impl Default for Viewport {
    fn default() -> (r: Self)
        ensures
            r.pos == (Vec2 { x: 0, y: 0 }),
            r.desired_pos == (Vec2 { x: 0, y: 0 }),
    {
        Viewport { pos: Vec2 { x: 0, y: 0 }, desired_pos: Vec2 { x: 0, y: 0 } }
    }
}

/// A texture uploaded for display, with its size in pixels.
#[derive(Clone, Copy, PartialEq, Eq, Structural, Debug)]
pub struct RenderedImage {
    pub texture_id: u32,
    pub width: u32,
    pub height: u32,
}

/// One tile of a row: its texture, and how much it is emphasised.
#[derive(Clone, Copy, PartialEq, Eq, Structural, Debug)]
pub struct DImage {
    pub scale: i64,
    pub border: i64,
    pub texture_id: u32,
}

/// One row: its title, its tiles in the order they arrived, the animated
/// position of the selection along the row, and the selected tile.
pub struct DImageRow {
    pub title: RenderedImage,
    pub images: Vec<DImage>,
    pub selected_tile_idx: i64,
    pub desired_selected_tile_idx: usize,
}

/// Scale of a tile after `dt`: the emphasised tile grows toward the zoom
/// ceiling, every other tile shrinks toward rest, one unit per second.
pub open spec fn tile_scale_after(scale: int, emphasised: bool, dt: int) -> int {
    if emphasised {
        if scale < ZOOM_CEILING {
            clamp_spec(scale + dt / 1000, SCALE_ONE as int, ZOOM_CEILING as int)
        } else {
            scale
        }
    } else {
        if scale > SCALE_ONE {
            clamp_spec(scale - dt / 1000, SCALE_ONE as int, ZOOM_CEILING as int)
        } else {
            scale
        }
    }
}

pub open spec fn tile_after(t: DImage, emphasised: bool, dt: int) -> DImage {
    DImage {
        scale: tile_scale_after(t.scale as int, emphasised, dt) as i64,
        border: if emphasised { SELECTED_BORDER } else { 0 },
        texture_id: t.texture_id,
    }
}

/// A scale between rest and the zoom ceiling.
pub open spec fn scale_in_range(scale: i64) -> bool {
    SCALE_ONE <= scale <= ZOOM_CEILING
}

/// Advances one tile by `dt`.
pub fn update_tile(tile: &mut DImage, emphasised: bool, dt: u64)
    ensures
        *final(tile) == tile_after(*old(tile), emphasised, dt as int),
{
    let step: i64 = (dt / 1000) as i64;
    if emphasised {
        tile.border = SELECTED_BORDER;
        if tile.scale < ZOOM_CEILING {
            tile.scale = clamp(tile.scale + step, SCALE_ONE, ZOOM_CEILING);
        }
    } else {
        tile.border = 0;
        if tile.scale > SCALE_ONE {
            tile.scale = clamp(tile.scale - step, SCALE_ONE, ZOOM_CEILING);
        }
    }
}

/// `n` thousandths, kept within `i64`.
pub open spec fn milli(n: int) -> int {
    sat_i64(n * 1000)
}

fn to_milli(n: usize) -> (r: i64)
    ensures
        r == milli(n as int),
{
    let v: u128 = (n as u128) * 1000;
    if v > i64::MAX as u128 {
        i64::MAX
    } else {
        v as i64
    }
}

/// `new` is row `old` advanced by `dt` as `DImageRow::update` does.
pub open spec fn row_after(old: DImageRow, new: DImageRow, row_selected: bool, dt: int) -> bool {
    &&& new.title == old.title
    &&& new.desired_selected_tile_idx == old.desired_selected_tile_idx
    &&& new.selected_tile_idx == sat_i64(
        approach_spec(old.selected_tile_idx as int, milli(old.desired_selected_tile_idx as int), dt),
    )
    &&& new.images@.len() == old.images@.len()
    &&& forall|j: int|
        0 <= j < old.images@.len() ==> #[trigger] new.images@[j] == tile_after(
            old.images@[j],
            row_selected && j == old.desired_selected_tile_idx,
            dt,
        )
}

impl DImageRow {
    /// A row with this title and no tiles yet.
    pub fn new(title: RenderedImage) -> (r: Self)
        ensures
            r.title == title,
            r.images@.len() == 0,
            r.selected_tile_idx == 0,
            r.desired_selected_tile_idx == 0,
    {
        DImageRow { title, images: Vec::new(), selected_tile_idx: 0, desired_selected_tile_idx: 0 }
    }

    /// The selected tile is a tile of the row, or the first place of an empty row.
    pub open spec fn selection_valid(&self) -> bool {
        if self.images@.len() == 0 {
            self.desired_selected_tile_idx == 0
        } else {
            self.desired_selected_tile_idx < self.images@.len()
        }
    }

    /// Every tile's scale is between rest and the zoom ceiling.
    pub open spec fn scales_valid(&self) -> bool {
        forall|j: int| 0 <= j < self.images@.len() ==> scale_in_range(#[trigger] self.images@[j].scale)
    }

    /// Advances the row by `dt`: the selection glides toward the selected
    /// tile, which is emphasised when `row_selected`, and every other tile
    /// relaxes.
    pub fn update(&mut self, row_selected: bool, dt: u64)
        ensures
            row_after(*old(self), *final(self), row_selected, dt as int),
    {
        let target = to_milli(self.desired_selected_tile_idx);
        self.selected_tile_idx = approach(self.selected_tile_idx, target, dt);
        let n = self.images.len();
        let mut j: usize = 0;
        while j < n
            invariant
                j <= n,
                n == old(self).images@.len(),
                self.images@.len() == n,
                self.title == old(self).title,
                self.desired_selected_tile_idx == old(self).desired_selected_tile_idx,
                self.selected_tile_idx == sat_i64(approach_spec(
                    old(self).selected_tile_idx as int,
                    milli(old(self).desired_selected_tile_idx as int),
                    dt as int,
                )),
                forall|q: int| 0 <= q < j ==> #[trigger] self.images@[q] == tile_after(
                    old(self).images@[q],
                    row_selected && q == old(self).desired_selected_tile_idx,
                    dt as int,
                ),
                forall|q: int| j <= q < n ==> #[trigger] self.images@[q] == old(self).images@[q],
            decreases n - j,
        {
            let mut tile = self.images[j];
            update_tile(&mut tile, row_selected && j == self.desired_selected_tile_idx, dt);
            self.images.set(j, tile);
            j = j + 1;
        }
    }
}

/// Selection inputs.
#[derive(Clone, Copy, PartialEq, Eq, Structural, Debug)]
pub enum NavKey {
    /// Select the previous tile of the selected row.
    Left,
    /// Select the next tile of the selected row.
    Right,
    /// Select the row above.
    Up,
    /// Select the row below.
    Down,
}

/// What is on screen: the rows and their tiles, the selected row, the
/// viewport, and whether the tiles are ready to be shown.
pub struct App {
    pub background_image_texture_id: u32,
    pub has_tiles_loaded: bool,
    pub selected_container_idx: usize,
    pub containers: Vec<DImageRow>,
    pub viewport: Viewport,
}

/// The row's selected tile exists and its tiles' scales are in range.
pub open spec fn row_ok(r: DImageRow) -> bool {
    r.selection_valid() && r.scales_valid()
}

/// Vertical position of the row at `index` (top of its title).
pub open spec fn row_offset(index: int) -> int {
    sat_i64((TITLE_HEIGHT + ROW_HEIGHT) * index)
}

/// The row may be selected: it exists, or it is the first place of an empty
/// list.
pub open spec fn row_selection_valid(selected: int, len: int) -> bool {
    if len == 0 {
        selected == 0
    } else {
        0 <= selected < len
    }
}

impl App {
    /// The selected row and each row's selected tile exist (or are the first
    /// place of an empty list), and every tile's scale is in range.
    pub open spec fn wf(&self) -> bool {
        &&& row_selection_valid(self.selected_container_idx as int, self.containers@.len() as int)
        &&& forall|i: int| 0 <= i < self.containers@.len() ==> row_ok(#[trigger] self.containers@[i])
    }

    /// A screen with no rows yet over the given background.
    pub fn new(background_image_texture_id: u32) -> (r: Self)
        ensures
            r.wf(),
            r.background_image_texture_id == background_image_texture_id,
            !r.has_tiles_loaded,
            r.selected_container_idx == 0,
            r.containers@.len() == 0,
            r.viewport.pos == (Vec2 { x: 0, y: 0 }),
            r.viewport.desired_pos == (Vec2 { x: 0, y: 0 }),
    {
        App {
            background_image_texture_id,
            has_tiles_loaded: false,
            selected_container_idx: 0,
            containers: Vec::new(),
            viewport: Viewport::default(),
        }
    }

    /// Appends a row with this title and no tiles.
    pub fn push_row(&mut self, title: RenderedImage)
        requires
            old(self).wf(),
        ensures
            final(self).wf(),
            final(self).containers@.len() == old(self).containers@.len() + 1,
            forall|i: int| 0 <= i < old(self).containers@.len() ==> #[trigger] final(self).containers@[i] == old(self).containers@[i],
            final(self).containers@.last().title == title,
            final(self).containers@.last().images@.len() == 0,
            final(self).containers@.last().selected_tile_idx == 0,
            final(self).containers@.last().desired_selected_tile_idx == 0,
            final(self).selected_container_idx == old(self).selected_container_idx,
            final(self).viewport == old(self).viewport,
            final(self).has_tiles_loaded == old(self).has_tiles_loaded,
            final(self).background_image_texture_id == old(self).background_image_texture_id,
    {
        self.containers.push(DImageRow::new(title));
        proof {
            assert forall|i: int| 0 <= i < self.containers@.len() implies row_ok(#[trigger] self.containers@[i]) by {
                if i < old(self).containers@.len() {
                    assert(self.containers@[i] == old(self).containers@[i]);
                }
            }
        }
    }

    /// Appends a loaded image to the end of its row as a tile at rest; an
    /// image for a row that does not exist is dropped.
    pub fn add_loaded_image(&mut self, loaded: DImageLoaded)
        requires
            old(self).wf(),
        ensures
            final(self).wf(),
            final(self).selected_container_idx == old(self).selected_container_idx,
            final(self).viewport == old(self).viewport,
            final(self).has_tiles_loaded == old(self).has_tiles_loaded,
            final(self).background_image_texture_id == old(self).background_image_texture_id,
            final(self).containers@.len() == old(self).containers@.len(),
            forall|i: int|
                0 <= i < old(self).containers@.len() && i != loaded.container_idx ==> #[trigger] final(self).containers@[i]
                    == old(self).containers@[i],
            loaded.container_idx < old(self).containers@.len() ==> {
                let o = old(self).containers@[loaded.container_idx as int];
                let n = final(self).containers@[loaded.container_idx as int];
                &&& n.title == o.title
                &&& n.selected_tile_idx == o.selected_tile_idx
                &&& n.desired_selected_tile_idx == o.desired_selected_tile_idx
                &&& n.images@ == o.images@.push(
                    DImage { scale: SCALE_ONE, border: 0, texture_id: loaded.texture_id },
                )
            },
    {
        let i = loaded.container_idx;
        if i < self.containers.len() {
            let mut row = DImageRow::new(RenderedImage { texture_id: 0, width: 0, height: 0 });
            self.containers.set_and_swap(i, &mut row);
            row.images.push(DImage { scale: SCALE_ONE, border: 0, texture_id: loaded.texture_id });
            self.containers.set_and_swap(i, &mut row);
            proof {
                let n = self.containers@[i as int];
                assert(n.images@.len() > 0);
                assert forall|j: int| 0 <= j < n.images@.len() implies scale_in_range(#[trigger] n.images@[j].scale) by {
                    if j < n.images@.len() - 1 {
                        assert(n.images@[j] == old(self).containers@[i as int].images@[j]);
                    }
                }
                assert forall|q: int| 0 <= q < self.containers@.len() implies row_ok(#[trigger] self.containers@[q]) by {
                    if q != i {
                        assert(self.containers@[q] == old(self).containers@[q]);
                    }
                }
            }
        }
    }

    /// Sets the selected tile of row `i`.
    fn set_desired_tile(&mut self, i: usize, d: usize)
        requires
            old(self).wf(),
            i < old(self).containers@.len(),
            d < old(self).containers@[i as int].images@.len(),
        ensures
            final(self).wf(),
            final(self).selected_container_idx == old(self).selected_container_idx,
            final(self).viewport == old(self).viewport,
            final(self).has_tiles_loaded == old(self).has_tiles_loaded,
            final(self).background_image_texture_id == old(self).background_image_texture_id,
            final(self).containers@.len() == old(self).containers@.len(),
            forall|q: int|
                0 <= q < old(self).containers@.len() && q != i ==> #[trigger] final(self).containers@[q]
                    == old(self).containers@[q],
            final(self).containers@[i as int].title == old(self).containers@[i as int].title,
            final(self).containers@[i as int].images == old(self).containers@[i as int].images,
            final(self).containers@[i as int].selected_tile_idx == old(self).containers@[i as int].selected_tile_idx,
            final(self).containers@[i as int].desired_selected_tile_idx == d,
    {
        let mut row = DImageRow::new(RenderedImage { texture_id: 0, width: 0, height: 0 });
        self.containers.set_and_swap(i, &mut row);
        row.desired_selected_tile_idx = d;
        self.containers.set_and_swap(i, &mut row);
        proof {
            assert forall|q: int| 0 <= q < self.containers@.len() implies row_ok(#[trigger] self.containers@[q]) by {
                if q != i {
                    assert(self.containers@[q] == old(self).containers@[q]);
                } else {
                    assert(row_ok(old(self).containers@[q]));
                }
            }
        }
    }

    /// Applies a selection input. The selected tile moves within the tiles
    /// the selected row holds now, never past its last tile nor before its
    /// first; the selected row moves within the rows.
    pub fn handle_key(&mut self, key: NavKey)
        requires
            old(self).wf(),
        ensures
            final(self).wf(),
            final(self).viewport == old(self).viewport,
            final(self).has_tiles_loaded == old(self).has_tiles_loaded,
            final(self).background_image_texture_id == old(self).background_image_texture_id,
            final(self).containers@.len() == old(self).containers@.len(),
            forall|i: int|
                0 <= i < old(self).containers@.len() && i != old(self).selected_container_idx
                    ==> #[trigger] final(self).containers@[i] == old(self).containers@[i],
            old(self).selected_container_idx < old(self).containers@.len() ==> {
                let o = old(self).containers@[old(self).selected_container_idx as int];
                let n = final(self).containers@[old(self).selected_container_idx as int];
                &&& n.title == o.title
                &&& n.images == o.images
                &&& n.selected_tile_idx == o.selected_tile_idx
                &&& n.desired_selected_tile_idx == match key {
                    NavKey::Right => if o.images@.len() > 0 && o.desired_selected_tile_idx + 1 < o.images@.len() {
                        o.desired_selected_tile_idx + 1
                    } else {
                        o.desired_selected_tile_idx as int
                    },
                    NavKey::Left => if o.desired_selected_tile_idx > 0 {
                        o.desired_selected_tile_idx - 1
                    } else {
                        0
                    },
                    _ => o.desired_selected_tile_idx as int,
                }
            },
            final(self).selected_container_idx == match key {
                NavKey::Up => if old(self).selected_container_idx >= 1 {
                    old(self).selected_container_idx - 1
                } else {
                    0
                },
                NavKey::Down => if old(self).selected_container_idx + 1 < old(self).containers@.len() {
                    old(self).selected_container_idx + 1
                } else {
                    old(self).selected_container_idx as int
                },
                _ => old(self).selected_container_idx as int,
            },
    {
        let sel = self.selected_container_idx;
        let len = self.containers.len();
        match key {
            NavKey::Right => {
                if sel < len {
                    let count = self.containers[sel].images.len();
                    let d = self.containers[sel].desired_selected_tile_idx;
                    if count > 0 && d < count - 1 {
                        self.set_desired_tile(sel, d + 1);
                    }
                }
            },
            NavKey::Left => {
                if sel < len {
                    let d = self.containers[sel].desired_selected_tile_idx;
                    if d > 0 {
                        self.set_desired_tile(sel, d - 1);
                    }
                }
            },
            NavKey::Up => {
                if sel >= 1 {
                    self.selected_container_idx = sel - 1;
                }
            },
            NavKey::Down => {
                if len > 0 && sel < len - 1 {
                    self.selected_container_idx = sel + 1;
                }
            },
        }
    }

    /// Advances the screen by `dt` microseconds. The viewport heads for the
    /// selected row and glides toward it; the tiles become ready once the
    /// designated row holds enough of them; each row's selection glides
    /// toward its selected tile, the selected tile of the selected row grows
    /// and gets a border, and every other tile relaxes.
    pub fn update(&mut self, dt: u64)
        requires
            old(self).wf(),
        ensures
            final(self).wf(),
            final(self).selected_container_idx == old(self).selected_container_idx,
            final(self).background_image_texture_id == old(self).background_image_texture_id,
            final(self).viewport.desired_pos == (Vec2 {
                x: old(self).viewport.desired_pos.x,
                y: row_offset(old(self).selected_container_idx as int) as i64,
            }),
            final(self).viewport.pos == (Vec2 {
                x: old(self).viewport.pos.x,
                y: sat_i64(approach_spec(
                    old(self).viewport.pos.y as int,
                    row_offset(old(self).selected_container_idx as int),
                    dt as int,
                )) as i64,
            }),
            final(self).has_tiles_loaded == (old(self).has_tiles_loaded || (READY_ROW
                < old(self).containers@.len() && old(self).containers@[READY_ROW as int].images@.len()
                > READY_TILE_COUNT)),
            final(self).containers@.len() == old(self).containers@.len(),
            forall|i: int|
                0 <= i < old(self).containers@.len() ==> row_after(
                    old(self).containers@[i],
                    #[trigger] final(self).containers@[i],
                    i == old(self).selected_container_idx,
                    dt as int,
                ),
    {
        let sel = self.selected_container_idx;
        proof {
            assert((TITLE_HEIGHT as u128 + ROW_HEIGHT as u128) * (sel as u128) <= 480_000u128 * 0xffff_ffff_ffff_ffffu128) by (nonlinear_arith)
                requires
                    TITLE_HEIGHT as u128 + ROW_HEIGHT as u128 == 480_000u128,
                    sel <= 0xffff_ffff_ffff_ffffu128,
            ;
        }
        let offset: u128 = (TITLE_HEIGHT as u128 + ROW_HEIGHT as u128) * (sel as u128);
        let desired_y: i64 = if offset > i64::MAX as u128 {
            i64::MAX
        } else {
            offset as i64
        };
        self.viewport.desired_pos.y = desired_y;
        self.viewport.pos.y = approach(self.viewport.pos.y, desired_y, dt);
        if READY_ROW < self.containers.len() && self.containers[READY_ROW].images.len() > READY_TILE_COUNT {
            self.has_tiles_loaded = true;
        }
        let n = self.containers.len();
        let ghost viewport = self.viewport;
        let ghost ready = self.has_tiles_loaded;
        let mut i: usize = 0;
        while i < n
            invariant
                self.viewport == viewport,
                self.has_tiles_loaded == ready,
                self.background_image_texture_id == old(self).background_image_texture_id,
                i <= n,
                n == old(self).containers@.len(),
                self.containers@.len() == n,
                self.selected_container_idx == sel,
                sel == old(self).selected_container_idx,
                row_selection_valid(sel as int, n as int),
                forall|q: int|
                    0 <= q < i ==> row_after(
                        old(self).containers@[q],
                        #[trigger] self.containers@[q],
                        q == sel,
                        dt as int,
                    ) && row_ok(self.containers@[q]),
                forall|q: int| i <= q < n ==> #[trigger] self.containers@[q] == old(self).containers@[q],
                forall|q: int| 0 <= q < n ==> row_ok(#[trigger] old(self).containers@[q]),
            decreases n - i,
        {
            let mut row = DImageRow::new(RenderedImage { texture_id: 0, width: 0, height: 0 });
            self.containers.set_and_swap(i, &mut row);
            let ghost before = row;
            row.update(i == sel, dt);
            proof {
                assert(row_ok(before));
                assert forall|j: int| 0 <= j < row.images@.len() implies scale_in_range(#[trigger] row.images@[j].scale) by {
                    assert(scale_in_range(before.images@[j].scale));
                    lemma_scale_stays_in_range(
                        before.images@[j].scale as int,
                        i == sel && j == before.desired_selected_tile_idx,
                        dt as int,
                    );
                }
            }
            self.containers.set_and_swap(i, &mut row);
            i = i + 1;
        }
    }
}

/// A tile's scale stays between rest and the zoom ceiling through a tick of
/// any length, emphasised or not; so it stays there through any number of
/// ticks.
pub proof fn lemma_scale_stays_in_range(scale: int, emphasised: bool, dt: int)
    requires
        SCALE_ONE <= scale <= ZOOM_CEILING,
        dt >= 0,
    ensures
        SCALE_ONE <= tile_scale_after(scale, emphasised, dt) <= ZOOM_CEILING,
{
}

/// Position after `n` ticks of `dt` toward a fixed `target`.
pub open spec fn approach_ticks(current: int, target: int, dt: int, n: nat) -> int
    decreases n,
{
    if n == 0 {
        current
    } else {
        approach_spec(approach_ticks(current, target, dt, (n - 1) as nat), target, dt)
    }
}

proof fn lemma_approach_step(current: int, target: int, dt: int)
    requires
        0 <= dt <= SMOOTHING_MICROS,
    ensures
        current <= target ==> current <= approach_spec(current, target, dt) <= target,
        target <= current ==> target <= approach_spec(current, target, dt) <= current,
{
    let s = SMOOTHING_MICROS as int;
    let d = if current <= target { target - current } else { current - target };
    assert(0 <= d * dt <= d * s) by (nonlinear_arith)
        requires
            d >= 0,
            0 <= dt <= s,
    ;
    lemma_div_is_ordered(d * dt, d * s, s);
    lemma_div_multiples_vanish(d, s);
    assert(d * s == s * d) by (nonlinear_arith);
    lemma_div_pos_is_pos(d * dt, s);
}

/// With a fixed target and ticks no longer than the smoothing constant, the
/// position moves toward the target at every tick and never passes it.
pub proof fn lemma_smoothing_converges(current: int, target: int, dt: int, n: nat)
    requires
        0 <= dt <= SMOOTHING_MICROS,
    ensures
        current <= target ==> current <= approach_ticks(current, target, dt, n) <= approach_ticks(
            current,
            target,
            dt,
            n + 1,
        ) <= target,
        target <= current ==> target <= approach_ticks(current, target, dt, n + 1) <= approach_ticks(
            current,
            target,
            dt,
            n,
        ) <= current,
    decreases n,
{
    if n > 0 {
        lemma_smoothing_converges(current, target, dt, (n - 1) as nat);
    }
    lemma_approach_step(approach_ticks(current, target, dt, n), target, dt);
}

/// Between two `i64` positions a tick without overshoot needs no saturation,
/// so the viewport follows `approach_ticks` exactly.
pub proof fn lemma_approach_fits(current: i64, target: i64, dt: int)
    requires
        0 <= dt <= SMOOTHING_MICROS,
    ensures
        sat_i64(approach_spec(current as int, target as int, dt)) == approach_spec(current as int, target as int, dt),
{
    lemma_approach_step(current as int, target as int, dt);
}

} // verus!
