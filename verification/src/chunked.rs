//! Tiled processing substrate: regions, overlap extents, and the memory
//! tracker that bounds how many tile bytes are in flight at once.

use crate::errors::ExecutionError;
use crate::values::PixelImage;
use vstd::prelude::*;

verus! {

/// A rectangular region within an image.  The right and bottom edges are
/// exclusive.
#[derive(Debug, Clone, Copy, PartialEq, Eq, Structural)]
pub struct TileRegion {
    /// X offset from the image origin.
    pub x: u32,
    /// Y offset from the image origin.
    pub y: u32,
    /// Width of the region.
    pub width: u32,
    /// Height of the region.
    pub height: u32,
}

impl TileRegion {
    /// Create a new tile region.
    pub fn new(x: u32, y: u32, width: u32, height: u32) -> (r: Self)
        ensures
            r == (TileRegion { x, y, width, height }),
    {
        TileRegion { x, y, width, height }
    }

    /// The right edge coordinate (exclusive), as a mathematical integer.
    pub open spec fn right_spec(self) -> int {
        self.x + self.width
    }

    /// The bottom edge coordinate (exclusive), as a mathematical integer.
    pub open spec fn bottom_spec(self) -> int {
        self.y + self.height
    }

    /// Get the right edge coordinate (exclusive).
    pub fn right(&self) -> (r: u32)
        requires
            self.right_spec() <= u32::MAX,
        ensures
            r == self.right_spec(),
    {
        self.x + self.width
    }

    /// Get the bottom edge coordinate (exclusive).
    pub fn bottom(&self) -> (r: u32)
        requires
            self.bottom_spec() <= u32::MAX,
        ensures
            r == self.bottom_spec(),
    {
        self.y + self.height
    }

    /// Calculate the area of this region in pixels.
    pub fn area(&self) -> (r: u64)
        ensures
            r == self.width * self.height,
    {
        proof {
            assert(self.width as int * self.height as int <= u64::MAX as int) by (nonlinear_arith)
                requires
                    self.width <= u32::MAX,
                    self.height <= u32::MAX,
            ;
        }
        self.width as u64 * self.height as u64
    }

    /// Expand this region by the given overlap amount, clamping to the image
    /// bounds, so that a spatial filter can read its neighbourhood.
    pub fn expand_with_overlap(&self, overlap: u32, image_width: u32, image_height: u32) -> (r: Self)
        requires
            self.right_spec() <= image_width,
            self.bottom_spec() <= image_height,
        ensures
            r.x == if overlap <= self.x { self.x - overlap } else { 0int },
            r.y == if overlap <= self.y { self.y - overlap } else { 0int },
            r.right_spec() == vstd::math::min(self.right_spec() + overlap, image_width as int),
            r.bottom_spec() == vstd::math::min(self.bottom_spec() + overlap, image_height as int),
    {
        let new_x = if overlap <= self.x { self.x - overlap } else { 0 };
        let new_y = if overlap <= self.y { self.y - overlap } else { 0 };
        let wide_right = self.x as u64 + self.width as u64 + overlap as u64;
        let wide_bottom = self.y as u64 + self.height as u64 + overlap as u64;
        let new_right = if wide_right < image_width as u64 { wide_right as u32 } else { image_width };
        let new_bottom = if wide_bottom < image_height as u64 { wide_bottom as u32 } else { image_height };

        TileRegion {
            x: new_x,
            y: new_y,
            width: new_right - new_x,
            height: new_bottom - new_y,
        }
    }

    /// Check if this region is entirely within the given bounds.
    pub fn is_within_bounds(&self, width: u32, height: u32) -> (r: bool)
        ensures
            r == (self.right_spec() <= width && self.bottom_spec() <= height),
    {
        self.x as u64 + self.width as u64 <= width as u64
            && self.y as u64 + self.height as u64 <= height as u64
    }
}

/// Spatial extent required by a filter around each tile: how many extra
/// pixels must be read on each side so that results at tile boundaries are
/// correct.
#[derive(Debug, Clone, Copy, PartialEq, Eq, Structural)]
pub struct SpatialExtent {
    /// Pixels needed to the left.
    pub left: u32,
    /// Pixels needed to the right.
    pub right: u32,
    /// Pixels needed above.
    pub top: u32,
    /// Pixels needed below.
    pub bottom: u32,
}

impl SpatialExtent {
    /// Create a symmetric extent (the same on all sides).
    pub fn symmetric(radius: u32) -> (r: Self)
        ensures
            r == (SpatialExtent { left: radius, right: radius, top: radius, bottom: radius }),
    {
        SpatialExtent { left: radius, right: radius, top: radius, bottom: radius }
    }

    /// Create an asymmetric extent.
    pub fn asymmetric(left: u32, right: u32, top: u32, bottom: u32) -> (r: Self)
        ensures
            r == (SpatialExtent { left, right, top, bottom }),
    {
        SpatialExtent { left, right, top, bottom }
    }

    /// The maximum extent in any direction.
    pub fn max_extent(&self) -> (r: u32)
        ensures
            r == vstd::math::max(
                vstd::math::max(self.left as int, self.right as int),
                vstd::math::max(self.top as int, self.bottom as int),
            ),
    {
        let horizontal = if self.left >= self.right { self.left } else { self.right };
        let vertical = if self.top >= self.bottom { self.top } else { self.bottom };
        if horizontal >= vertical { horizontal } else { vertical }
    }

    /// Check if this filter requires any overlap.
    pub fn needs_overlap(&self) -> (r: bool)
        ensures
            r == (self.left > 0 || self.right > 0 || self.top > 0 || self.bottom > 0),
    {
        self.left > 0 || self.right > 0 || self.top > 0 || self.bottom > 0
    }

    /// Combine with another extent, taking the maximum on each side.
    pub fn combine(&self, other: &SpatialExtent) -> (r: SpatialExtent)
        ensures
            r.left == vstd::math::max(self.left as int, other.left as int),
            r.right == vstd::math::max(self.right as int, other.right as int),
            r.top == vstd::math::max(self.top as int, other.top as int),
            r.bottom == vstd::math::max(self.bottom as int, other.bottom as int),
    {
        SpatialExtent {
            left: if self.left >= other.left { self.left } else { other.left },
            right: if self.right >= other.right { self.right } else { other.right },
            top: if self.top >= other.top { self.top } else { other.top },
            bottom: if self.bottom >= other.bottom { self.bottom } else { other.bottom },
        }
    }
}

impl Default for SpatialExtent {
    /// The extent of a purely point-wise filter: no neighbourhood at all.
    fn default() -> (r: Self)
        ensures
            r == (SpatialExtent { left: 0u32, right: 0u32, top: 0u32, bottom: 0u32 }),
    {
        SpatialExtent { left: 0, right: 0, top: 0, bottom: 0 }
    }
}

/// Memory tracker for tiled processing.  It counts the bytes currently in
/// flight and refuses an allocation that would push the count past the
/// limit, so the count never exceeds the limit.
#[derive(Debug)]
pub struct MemoryTracker {
    current: usize,
    peak: usize,
    limit: usize,
}

impl MemoryTracker {
    /// The tracked usage never exceeds the limit, and the peak watermark
    /// never falls below the current usage.
    pub closed spec fn wf(&self) -> bool {
        self.current <= self.limit && self.current <= self.peak
    }

    /// Current usage, for contracts.
    pub closed spec fn current_spec(&self) -> int {
        self.current as int
    }

    /// Peak usage, for contracts.
    pub closed spec fn peak_spec(&self) -> int {
        self.peak as int
    }

    /// The limit, for contracts.
    pub closed spec fn limit_spec(&self) -> int {
        self.limit as int
    }

    /// Create a new memory tracker with the given limit.
    pub fn new(limit: usize) -> (r: Self)
        ensures
            r.wf(),
            r.current_spec() == 0,
            r.peak_spec() == 0,
            r.limit_spec() == limit,
    {
        MemoryTracker { current: 0, peak: 0, limit }
    }

    /// Try to reserve `bytes`.  Succeeds exactly when the reservation fits
    /// under the limit; on success the usage grows by `bytes` and the peak
    /// watermark is raised to at least the new usage.
    pub fn try_allocate(&mut self, bytes: usize) -> (r: bool)
        requires
            old(self).wf(),
        ensures
            final(self).wf(),
            final(self).limit_spec() == old(self).limit_spec(),
            r == (old(self).current_spec() + bytes <= old(self).limit_spec()),
            r ==> final(self).current_spec() == old(self).current_spec() + bytes,
            r ==> final(self).peak_spec() == vstd::math::max(
                old(self).peak_spec(),
                final(self).current_spec(),
            ),
            !r ==> *final(self) == *old(self),
            final(self).peak_spec() >= old(self).peak_spec(),
    {
        if bytes > self.limit - self.current {
            return false;
        }
        self.current = self.current + bytes;
        if self.current > self.peak {
            self.peak = self.current;
        }
        true
    }

    /// Release previously reserved bytes.
    pub fn release(&mut self, bytes: usize)
        requires
            old(self).wf(),
            bytes <= old(self).current_spec(),
        ensures
            final(self).wf(),
            final(self).current_spec() == old(self).current_spec() - bytes,
            final(self).peak_spec() == old(self).peak_spec(),
            final(self).limit_spec() == old(self).limit_spec(),
    {
        self.current = self.current - bytes;
    }

    /// Get current memory usage.
    pub fn current_usage(&self) -> (r: usize)
        ensures
            r == self.current_spec(),
    {
        self.current
    }

    /// Get the peak memory usage.
    pub fn peak_usage(&self) -> (r: usize)
        ensures
            r == self.peak_spec(),
    {
        self.peak
    }

    /// Get the remaining available memory.
    pub fn available(&self) -> (r: usize)
        requires
            self.wf(),
        ensures
            r == self.limit_spec() - self.current_spec(),
    {
        self.limit - self.current
    }

    /// Get the memory limit.
    pub fn limit(&self) -> (r: usize)
        ensures
            r == self.limit_spec(),
    {
        self.limit
    }
}

} // verus!

verus! {

/// Default memory limit: 500 MB.
pub const DEFAULT_MEMORY_LIMIT: usize = 500 * 1024 * 1024;

/// Minimum tile side in pixels.
pub const MIN_TILE_SIZE: u32 = 64;

/// Maximum tile side in pixels.
pub const MAX_TILE_SIZE: u32 = 4096;

/// A tile side clamped into the supported range.
pub open spec fn clamp_tile(v: u32) -> u32 {
    if v < MIN_TILE_SIZE {
        MIN_TILE_SIZE
    } else if v > MAX_TILE_SIZE {
        MAX_TILE_SIZE
    } else {
        v
    }
}

/// Configuration for tiled processing.
#[derive(Debug, Clone, Copy, PartialEq, Eq, Structural)]
pub struct ProcessingConfig {
    /// Maximum memory to use, in bytes.
    pub memory_limit: usize,
    /// Preferred tile width.
    pub tile_width: u32,
    /// Preferred tile height.
    pub tile_height: u32,
    /// Overlap for spatial filters.
    pub overlap: u32,
    /// Whether tiles may be processed concurrently.
    pub parallel: bool,
    /// Number of worker threads; zero means all available.
    pub num_threads: usize,
}

impl Default for ProcessingConfig {
    /// The default budget with 512-pixel tiles and no overlap.
    fn default() -> (r: Self)
        ensures
            r == (ProcessingConfig {
                memory_limit: (500 * 1024 * 1024) as usize,
                tile_width: 512u32,
                tile_height: 512u32,
                overlap: 0u32,
                parallel: true,
                num_threads: 0 as usize,
            }),
    {
        ProcessingConfig {
            memory_limit: 500 * 1024 * 1024,
            tile_width: 512,
            tile_height: 512,
            overlap: 0,
            parallel: true,
            num_threads: 0,
        }
    }
}

/// The integer square root: the greatest root whose square is no more.
pub fn isqrt64(n: u64) -> (r: u64)
    ensures
        r * r <= n,
        (r + 1) * (r + 1) > n,
{
    let mut lo: u64 = 0;
    let mut hi: u64 = 0xffffffff;
    proof {
        assert((0x100000000u64 as int) * (0x100000000u64 as int) > u64::MAX as int)
            by (nonlinear_arith);
    }
    while lo < hi
        invariant
            lo <= hi,
            hi <= 0xffffffff,
            lo * lo <= n,
            (hi + 1) * (hi + 1) > n,
        decreases hi - lo,
    {
        let mid = lo + (hi - lo + 1) / 2;
        proof {
            assert((mid as int) * (mid as int) < (u128::MAX as int)) by (nonlinear_arith)
                requires
                    mid <= 0xffffffffu64,
            ;
        }
        let sq = mid as u128 * mid as u128;
        if sq <= n as u128 {
            lo = mid;
        } else {
            hi = mid - 1;
            proof {
                assert((mid as int) * (mid as int) > n);
            }
        }
    }
    lo
}

impl ProcessingConfig {
    /// The defaults.
    pub fn new() -> (r: Self)
        ensures
            r == (ProcessingConfig {
                memory_limit: (500 * 1024 * 1024) as usize,
                tile_width: 512u32,
                tile_height: 512u32,
                overlap: 0u32,
                parallel: true,
                num_threads: 0 as usize,
            }),
    {
        ProcessingConfig::default()
    }

    /// Set the memory limit in bytes.
    pub fn with_memory_limit(self, limit: usize) -> (r: Self)
        ensures
            r == (ProcessingConfig { memory_limit: limit, ..self }),
    {
        ProcessingConfig { memory_limit: limit, ..self }
    }

    /// Set the memory limit in whole megabytes.
    pub fn with_memory_limit_mb(self, mb: usize) -> (r: Self)
        requires
            mb * 1024 * 1024 <= usize::MAX,
        ensures
            r.memory_limit == mb * 1024 * 1024,
            r.tile_width == self.tile_width,
            r.tile_height == self.tile_height,
            r.overlap == self.overlap,
    {
        ProcessingConfig { memory_limit: mb * 1024 * 1024, ..self }
    }

    /// Set the preferred tile size, clamped to the supported range.
    pub fn with_tile_size(self, width: u32, height: u32) -> (r: Self)
        ensures
            r.tile_width == clamp_tile(width),
            r.tile_height == clamp_tile(height),
            r.memory_limit == self.memory_limit,
            r.overlap == self.overlap,
            r.parallel == self.parallel,
            r.num_threads == self.num_threads,
    {
        let tile_width = if width < MIN_TILE_SIZE {
            MIN_TILE_SIZE
        } else if width > MAX_TILE_SIZE {
            MAX_TILE_SIZE
        } else {
            width
        };
        let tile_height = if height < MIN_TILE_SIZE {
            MIN_TILE_SIZE
        } else if height > MAX_TILE_SIZE {
            MAX_TILE_SIZE
        } else {
            height
        };
        ProcessingConfig { tile_width, tile_height, ..self }
    }

    /// Set the overlap for spatial filters.
    pub fn with_overlap(self, overlap: u32) -> (r: Self)
        ensures
            r == (ProcessingConfig { overlap, ..self }),
    {
        ProcessingConfig { overlap, ..self }
    }

    /// Allow or forbid concurrent tiles.
    pub fn with_parallel(self, parallel: bool) -> (r: Self)
        ensures
            r == (ProcessingConfig { parallel, ..self }),
    {
        ProcessingConfig { parallel, ..self }
    }

    /// Set the number of worker threads.
    pub fn with_threads(self, threads: usize) -> (r: Self)
        ensures
            r == (ProcessingConfig { num_threads: threads, ..self }),
    {
        ProcessingConfig { num_threads: threads, ..self }
    }

    /// The tile size for an image: the whole image when it fits in a third
    /// of the budget at four bytes per pixel, else a square tile whose area
    /// fits, clamped to the supported range.
    pub fn calculate_optimal_tile_size(&self, image_width: u32, image_height: u32) -> (r: (
        u32,
        u32,
    ))
        ensures
            image_width * image_height * 4 * 3 <= self.memory_limit ==> r == (
                image_width,
                image_height,
            ),
            image_width * image_height * 4 * 3 > self.memory_limit ==> {
                &&& MIN_TILE_SIZE <= r.0 <= MAX_TILE_SIZE
                &&& r.0 == r.1
                &&& r.0 * r.1 * 12 <= self.memory_limit || r.0 == MIN_TILE_SIZE
            },
    {
        let max_tile_pixels = self.memory_limit / 12;
        proof {
            assert(image_width as int * image_height as int * 4 * 3 < u128::MAX as int)
                by (nonlinear_arith)
                requires
                    image_width <= u32::MAX,
                    image_height <= u32::MAX,
            ;
        }
        let total = image_width as u128 * image_height as u128 * 4 * 3;
        if total <= self.memory_limit as u128 {
            return (image_width, image_height);
        }
        let side = isqrt64(if max_tile_pixels as u64 > 0xffffffffffff {
            0xffffffffffff
        } else {
            max_tile_pixels as u64
        });
        let side32 = if side > MAX_TILE_SIZE as u64 {
            MAX_TILE_SIZE
        } else if side < MIN_TILE_SIZE as u64 {
            MIN_TILE_SIZE
        } else {
            side as u32
        };
        proof {
            if side32 != MIN_TILE_SIZE {
                assert(side32 as int * side32 as int <= side as int * side as int)
                    by (nonlinear_arith)
                    requires
                        side32 as int <= side as int,
                ;
                if max_tile_pixels as u64 > 0xffffffffffff {
                    assert(side32 as int * side32 as int * 12 <= self.memory_limit as int)
                        by (nonlinear_arith)
                        requires
                            side32 <= MAX_TILE_SIZE,
                            max_tile_pixels >= 0xffffffffffff,
                            max_tile_pixels == self.memory_limit / 12,
                    ;
                } else {
                    assert(side as int * side as int <= max_tile_pixels as int);
                    assert(side32 as int * side32 as int * 12 <= self.memory_limit as int)
                        by (nonlinear_arith)
                        requires
                            side32 as int * side32 as int <= max_tile_pixels as int,
                            max_tile_pixels == self.memory_limit / 12,
                    ;
                }
            }
        }
        (side32, side32)
    }

    /// Whether an image of these dimensions exceeds half the memory budget
    /// at four bytes per pixel and so needs tiled processing.
    pub fn needs_chunking(&self, image_width: u32, image_height: u32) -> (r: bool)
        ensures
            r == (image_width * image_height * 4 > self.memory_limit / 2),
    {
        proof {
            assert(image_width as int * image_height as int * 4 < u128::MAX as int)
                by (nonlinear_arith)
                requires
                    image_width <= u32::MAX,
                    image_height <= u32::MAX,
            ;
        }
        let image_size = image_width as u128 * image_height as u128 * 4;
        image_size > (self.memory_limit / 2) as u128
    }
}

/// Iterator over the tiles of an image, in raster order.
pub struct TileIterator {
    /// Image width in pixels.
    pub image_width: u32,
    /// Image height in pixels.
    pub image_height: u32,
    /// Tile width in pixels.
    pub tile_width: u32,
    /// Tile height in pixels.
    pub tile_height: u32,
    /// X position of the next tile.
    pub current_x: u32,
    /// Y position of the next tile.
    pub current_y: u32,
}

impl TileIterator {
    /// Start at the top-left tile.
    pub fn new(image_width: u32, image_height: u32, tile_width: u32, tile_height: u32) -> (r: Self)
        ensures
            r.image_width == image_width,
            r.image_height == image_height,
            r.tile_width == tile_width,
            r.tile_height == tile_height,
            r.current_x == 0,
            r.current_y == 0,
    {
        TileIterator { image_width, image_height, tile_width, tile_height, current_x: 0, current_y: 0 }
    }

    /// The total number of tiles: the product of the tile counts along each
    /// axis, rounding up.
    pub fn tile_count(&self) -> (r: usize)
        requires
            self.tile_width > 0,
            self.tile_height > 0,
        ensures
            r == vstd::math::min(
                ((self.image_width + self.tile_width - 1) as int / self.tile_width as int) * ((
                self.image_height + self.tile_height - 1) as int / self.tile_height as int),
                usize::MAX as int,
            ),
    {
        let tiles_x = (self.image_width as u64 + self.tile_width as u64 - 1) / self.tile_width as u64;
        let tiles_y = (self.image_height as u64 + self.tile_height as u64 - 1)
            / self.tile_height as u64;
        proof {
            assert((tiles_x as int) * (tiles_y as int) < (u128::MAX as int)) by (nonlinear_arith)
                requires
                    tiles_x <= u64::MAX,
                    tiles_y <= u64::MAX,
            ;
        }
        let wide = tiles_x as u128 * tiles_y as u128;
        if wide > usize::MAX as u128 {
            usize::MAX
        } else {
            wide as usize
        }
    }

    /// The next tile region in raster order, clipped to the image edge, or
    /// nothing when the image is exhausted.
    pub fn next(&mut self) -> (r: Option<TileRegion>)
        requires
            old(self).tile_width > 0,
            old(self).tile_height > 0,
            old(self).current_x < old(self).image_width || old(self).current_x == 0,
        ensures
            final(self).image_width == old(self).image_width,
            final(self).image_height == old(self).image_height,
            final(self).tile_width == old(self).tile_width,
            final(self).tile_height == old(self).tile_height,
            match r {
                Some(region) => {
                    &&& old(self).current_y < old(self).image_height
                    &&& region.x == old(self).current_x
                    &&& region.y == old(self).current_y
                    &&& region.width == vstd::math::min(
                        old(self).tile_width as int,
                        old(self).image_width - old(self).current_x,
                    )
                    &&& region.height == vstd::math::min(
                        old(self).tile_height as int,
                        old(self).image_height - old(self).current_y,
                    )
                    &&& if old(self).image_width - old(self).current_x > old(self).tile_width {
                        // more tiles in this row: step right, same row
                        final(self).current_x == old(self).current_x + old(self).tile_width
                            && final(self).current_y == old(self).current_y
                    } else {
                        // row finished: back to the left edge, next tile row
                        final(self).current_x == 0 && final(self).current_y == vstd::math::min(
                            old(self).current_y + old(self).tile_height,
                            old(self).image_height as int,
                        )
                    }
                    &&& final(self).current_x < final(self).image_width || final(self).current_x
                        == 0
                },
                None => (old(self).current_y >= old(self).image_height || old(self).image_width
                    == 0) && *final(self) == *old(self),
            },
    {
        if self.current_y >= self.image_height {
            return None;
        }
        if self.current_x >= self.image_width {
            // only reachable when the image has zero width
            return None;
        }
        let x = self.current_x;
        let y = self.current_y;
        let width = if self.tile_width < self.image_width - x {
            self.tile_width
        } else {
            self.image_width - x
        };
        let height = if self.tile_height < self.image_height - y {
            self.tile_height
        } else {
            self.image_height - y
        };
        if self.image_width - self.current_x > self.tile_width {
            self.current_x = self.current_x + self.tile_width;
        } else {
            self.current_x = 0;
            self.current_y = if self.image_height - self.current_y > self.tile_height {
                self.current_y + self.tile_height
            } else {
                self.image_height
            };
        }
        Some(TileRegion { x, y, width, height })
    }
}

} // verus!

verus! {

/// A point-wise pixel operation: the closed set of transforms the tiled
/// substrate offers directly.
#[derive(Debug, Clone, Copy, PartialEq, Eq, Structural)]
pub enum PointOp {
    /// Invert the colour channels, keeping alpha.
    Invert,
    /// Pass every byte through unchanged.
    Identity,
}

/// The effect of a point-wise operation on one byte of a pixel, by its
/// channel index within the pixel.
pub open spec fn apply_op(op: PointOp, channel: int, b: u8) -> u8 {
    match op {
        PointOp::Invert => if channel % 4 < 3 {
            (255 - b) as u8
        } else {
            b
        },
        PointOp::Identity => b,
    }
}

/// Apply a point-wise operation to one byte.
fn apply_op_byte(op: PointOp, channel: usize, b: u8) -> (r: u8)
    ensures
        r == apply_op(op, channel as int, b),
{
    match op {
        PointOp::Invert => if channel % 4 < 3 {
            255 - b
        } else {
            b
        },
        PointOp::Identity => b,
    }
}

/// One output byte agrees with the point-wise image of the input byte at a
/// pixel and channel.
pub open spec fn cell_ok(
    out: Seq<u8>,
    src: Seq<u8>,
    op: PointOp,
    width: int,
    gx: int,
    gy: int,
    ch: int,
) -> bool {
    out[(gy * width + gx) * 4 + ch] == apply_op(op, ch, src[(gy * width + gx) * 4 + ch])
}

/// Apply a point-wise operation to a whole image at once.
pub fn apply_pointwise_full(img: &PixelImage, op: PointOp) -> (r: PixelImage)
    requires
        img@.wf(),
    ensures
        r@.wf(),
        r@.width == img@.width,
        r@.height == img@.height,
        r@.data.len() == img@.data.len(),
        forall|i: int|
            0 <= i < img@.data.len() ==> #[trigger] r@.data[i] == apply_op(
                op,
                i % 4,
                img@.data[i],
            ),
{
    let src = img.bytes();
    let n = src.len();
    let mut out: Vec<u8> = Vec::new();
    let mut i: usize = 0;
    while i < n
        invariant
            n == img@.data.len(),
            src@ == img@.data,
            i <= n,
            out@.len() == i,
            forall|j: int|
                0 <= j < i ==> #[trigger] out@[j] == apply_op(op, j % 4, img@.data[j]),
        decreases n - i,
    {
        out.push(apply_op_byte(op, i % 4, src[i]));
        i = i + 1;
    }
    let width = img.width();
    let height = img.height();
    PixelImage::from_raw(width, height, out)
}

/// Apply a point-wise operation through the tiled substrate: the image is
/// cut into tiles sized for the memory budget, each tile is read into its
/// own buffer, transformed, and written to the output canvas, with the tile
/// bytes in flight reserved against the budget and released afterwards.
/// The reassembled output is byte-identical to applying the operation to
/// the whole image at once, whatever the tile size; the only failure is a
/// budget too small for even a minimal tile's double reservation, so any
/// budget of at least eight bytes per minimal-tile pixel is owed success.
pub fn process_pointwise(img: &PixelImage, config: &ProcessingConfig, op: PointOp) -> (r: Result<
    PixelImage,
    ExecutionError,
>)
    requires
        img@.wf(),
    ensures
        match r {
            Ok(out) => {
                &&& out@.wf()
                &&& out@.width == img@.width
                &&& out@.height == img@.height
                &&& out@.data.len() == img@.data.len()
                &&& forall|i: int|
                    0 <= i < img@.data.len() ==> #[trigger] out@.data[i] == apply_op(
                        op,
                        i % 4,
                        img@.data[i],
                    )
            },
            Err(e) => e is OutOfMemory && config.memory_limit < 8 * MIN_TILE_SIZE
                * MIN_TILE_SIZE,
        },
        config.memory_limit >= 8 * MIN_TILE_SIZE * MIN_TILE_SIZE ==> r is Ok,
{
    let width = img.width();
    let height = img.height();
    if width == 0 || height == 0 {
        // an empty image has no bytes to process
        let data: Vec<u8> = Vec::new();
        proof {
            assert(img@.data.len() == 0) by (nonlinear_arith)
                requires
                    img@.data.len() == img@.width * img@.height * 4,
                    img@.width == 0 || img@.height == 0,
            ;
        }
        return Ok(PixelImage::from_raw(width, height, data));
    }
    let (tw, th) = config.calculate_optimal_tile_size(width, height);
    proof {
        if img@.width * img@.height * 4 * 3 <= config.memory_limit {
            assert(tw > 0 && th > 0);
        } else {
            assert(tw >= MIN_TILE_SIZE);
        }
        // every tile's double reservation fits the budget, unless even the
        // minimal tile does not
        assert((tw as int) * (th as int) * 8 <= config.memory_limit as int || (tw
            == MIN_TILE_SIZE && th == MIN_TILE_SIZE)) by {
            if img@.width * img@.height * 4 * 3 <= config.memory_limit {
                assert((tw as int) * (th as int) * 8 <= (img@.width as int) * (img@.height as int)
                    * 4 * 3) by (nonlinear_arith)
                    requires
                        tw == img@.width,
                        th == img@.height,
                ;
            } else {
                if tw != MIN_TILE_SIZE {
                    assert((tw as int) * (th as int) * 12 <= config.memory_limit as int);
                    assert((tw as int) * (th as int) * 8 <= (tw as int) * (th as int) * 12)
                        by (nonlinear_arith);
                }
            }
        }
    }
    let mut tracker = MemoryTracker::new(config.memory_limit);

    // the output canvas, zeroed
    let total = img.bytes().len();
    let mut canvas: Vec<u8> = Vec::new();
    let mut z: usize = 0;
    while z < total
        invariant
            z <= total,
            canvas@.len() == z,
        decreases total - z,
    {
        canvas.push(0);
        z = z + 1;
    }

    let src = img.bytes();
    let ghost srcv = img@.data;
    let w = width as usize;
    let h = height as usize;

    let mut gy0: usize = 0;
    while gy0 < h
        invariant
            img@.wf(),
            srcv == img@.data,
            src@ == img@.data,
            w == img@.width,
            h == img@.height,
            total == img@.data.len(),
            tw > 0,
            th > 0,
            (tw as int) * (th as int) * 8 <= config.memory_limit as int || (tw == MIN_TILE_SIZE
                && th == MIN_TILE_SIZE),
            canvas@.len() == total,
            tracker.wf(),
            tracker.current_spec() == 0,
            tracker.limit_spec() == config.memory_limit,
            gy0 <= h,
            forall|gy: int, gx: int, ch: int|
                0 <= gy < gy0 && 0 <= gx < w && 0 <= ch < 4 ==> #[trigger] cell_ok(
                    canvas@,
                    srcv,
                    op,
                    w as int,
                    gx,
                    gy,
                    ch,
                ),
        decreases h - gy0,
    {
        let rows = if th as usize <= h - gy0 {
            th as usize
        } else {
            h - gy0
        };
        let mut gx0: usize = 0;
        while gx0 < w
            invariant
                img@.wf(),
                srcv == img@.data,
                src@ == img@.data,
                w == img@.width,
                h == img@.height,
                total == img@.data.len(),
                tw > 0,
                th > 0,
                (tw as int) * (th as int) * 8 <= config.memory_limit as int || (tw
                    == MIN_TILE_SIZE && th == MIN_TILE_SIZE),
                canvas@.len() == total,
                tracker.wf(),
                tracker.current_spec() == 0,
                tracker.limit_spec() == config.memory_limit,
                gy0 < h,
                0 < rows,
                rows <= th,
                gy0 + rows <= h,
                gx0 <= w,
                forall|gy: int, gx: int, ch: int|
                    0 <= gy < gy0 && 0 <= gx < w && 0 <= ch < 4 ==> #[trigger] cell_ok(
                        canvas@,
                        srcv,
                        op,
                        w as int,
                        gx,
                        gy,
                        ch,
                    ),
                forall|gy: int, gx: int, ch: int|
                    gy0 <= gy < gy0 + rows && 0 <= gx < gx0 && 0 <= ch < 4 ==> #[trigger] cell_ok(
                        canvas@,
                        srcv,
                        op,
                        w as int,
                        gx,
                        gy,
                        ch,
                    ),
            decreases w - gx0,
        {
            let cols = if tw as usize <= w - gx0 {
                tw as usize
            } else {
                w - gx0
            };
            // reserve the tile buffers against the budget
            proof {
                assert((cols as int) * (rows as int) * 8 < (u128::MAX as int))
                    by (nonlinear_arith)
                    requires
                        cols <= w,
                        rows <= h,
                        (w as int) * (h as int) * 4 == total as int,
                        total <= usize::MAX,
                ;
                assert((cols as int) * (rows as int) * 8 <= (tw as int) * (th as int) * 8)
                    by (nonlinear_arith)
                    requires
                        cols <= tw,
                        rows <= th,
                ;
                assert((tw as int) * (th as int) * 8 <= usize::MAX as int) by {
                    if tw == MIN_TILE_SIZE && th == MIN_TILE_SIZE {
                        assert((tw as int) * (th as int) * 8 == 8 * 64 * 64) by (nonlinear_arith)
                            requires
                                tw == 64u32,
                                th == 64u32,
                        ;
                    }
                }
            }
            let tile_bytes_wide = cols as u128 * rows as u128 * 8;
            let tile_bytes = tile_bytes_wide as usize;
            if !tracker.try_allocate(tile_bytes) {
                proof {
                    // the reservation only fails when even the minimal tile
                    // cannot fit the budget
                    assert(tile_bytes > config.memory_limit);
                    assert(config.memory_limit < 8 * MIN_TILE_SIZE * MIN_TILE_SIZE) by {
                        if tw == MIN_TILE_SIZE && th == MIN_TILE_SIZE {
                            assert((cols as int) * (rows as int) * 8 <= 8 * 64 * 64)
                                by (nonlinear_arith)
                                requires
                                    cols <= 64u32,
                                    rows <= 64u32,
                            ;
                        }
                    }
                }
                return Err(ExecutionError::OutOfMemory);
            }

            // read the tile
            let mut buf: Vec<u8> = Vec::new();
            let mut r: usize = 0;
            while r < rows
                invariant
                    img@.wf(),
                    srcv == img@.data,
                    src@ == img@.data,
                    w == img@.width,
                    h == img@.height,
                    total == img@.data.len(),
                    gy0 + rows <= h,
                    gx0 + cols <= w,
                    0 < w,
                    0 < cols,
                    r <= rows,
                    buf@.len() == r * cols * 4,
                    forall|rr: int, k: int|
                        0 <= rr < r && 0 <= k < cols * 4 ==> #[trigger] buf@[rr * (cols * 4) + k]
                            == srcv[((gy0 + rr) * w + gx0) * 4 + k],
                decreases rows - r,
            {
                proof {
                    assert(((gy0 + r) * w + gx0) * 4 + cols * 4 <= total) by (nonlinear_arith)
                        requires
                            total == w * h * 4,
                            gy0 + r < h,
                            gx0 + cols <= w,
                            0 <= gy0,
                            0 <= gx0,
                            0 <= r,
                            0 < w,
                    ;
                    assert(buf@.len() + cols * 4 == (r + 1) * (cols * 4)) by (nonlinear_arith)
                        requires
                            buf@.len() == r * cols * 4,
                    ;
                }
                let row_src_base = ((gy0 + r) * w + gx0) * 4;
                let mut k: usize = 0;
                let ghost buf_row_start = buf@.len();
                proof {
                    assert(buf_row_start == r * (cols * 4)) by (nonlinear_arith)
                        requires
                            buf_row_start == r * cols * 4,
                    ;
                }
                let ghost buf_fixed = buf@;
                while k < cols * 4
                    invariant
                        src@ == srcv,
                        total == srcv.len(),
                        row_src_base + cols * 4 <= total,
                        buf_row_start == r * (cols * 4),
                        buf_fixed.len() == buf_row_start,
                        buf@.len() == buf_row_start + k,
                        k <= cols * 4,
                        row_src_base == ((gy0 + r) * w + gx0) * 4,
                        buf@.subrange(0, buf_row_start as int) == buf_fixed,
                        forall|kk: int|
                            0 <= kk < k ==> #[trigger] buf@[buf_row_start + kk] == srcv[row_src_base
                                + kk],
                    decreases cols * 4 - k,
                {
                    buf.push(src[row_src_base + k]);
                    k = k + 1;
                    proof {
                        assert(buf@.subrange(0, buf_row_start as int) =~= buf_fixed);
                    }
                }
                r = r + 1;
                proof {
                    assert(buf@.len() == r * cols * 4) by (nonlinear_arith)
                        requires
                            buf@.len() == buf_row_start + cols * 4,
                            buf_row_start == (r - 1) * (cols * 4),
                    ;
                    assert forall|rr: int, kk: int|
                        0 <= rr < r && 0 <= kk < cols * 4 implies #[trigger] buf@[rr * (cols * 4)
                            + kk] == srcv[((gy0 + rr) * w + gx0) * 4 + kk] by {
                        if rr == r - 1 {
                            assert(rr * (cols * 4) == buf_row_start);
                            assert(buf@[buf_row_start + kk] == srcv[row_src_base + kk]);
                        } else {
                            assert(0 <= rr * (cols * 4) + kk < buf_row_start) by (nonlinear_arith)
                                requires
                                    buf_row_start == (r - 1) * (cols * 4),
                                    0 <= rr < r - 1,
                                    0 <= kk < cols * 4,
                            ;
                            assert(buf@.subrange(0, buf_row_start as int)[rr * (cols * 4) + kk]
                                == buf_fixed[rr * (cols * 4) + kk]);
                            assert(buf@[rr * (cols * 4) + kk] == buf_fixed[rr * (cols * 4) + kk]);
                        }
                    }
                }
            }

            // transform the tile in place
            let tile_len = buf.len();
            let mut out_buf: Vec<u8> = Vec::new();
            let mut j: usize = 0;
            while j < tile_len
                invariant
                    tile_len == buf@.len(),
                    j <= tile_len,
                    out_buf@.len() == j,
                    forall|jj: int|
                        0 <= jj < j ==> #[trigger] out_buf@[jj] == apply_op(op, jj % 4, buf@[jj]),
                decreases tile_len - j,
            {
                out_buf.push(apply_op_byte(op, j % 4, buf[j]));
                j = j + 1;
            }

            // write the tile's bytes to the canvas
            let mut r2: usize = 0;
            let ghost canvas_before = canvas@;
            while r2 < rows
                invariant
                    img@.wf(),
                    srcv == img@.data,
                    w == img@.width,
                    h == img@.height,
                    total == img@.data.len(),
                    canvas@.len() == total,
                    canvas_before.len() == total,
                    gy0 + rows <= h,
                    gx0 + cols <= w,
                    0 < w,
                    0 < cols,
                    0 < rows,
                    r2 <= rows,
                    tile_len == buf@.len(),
                    buf@.len() == rows * cols * 4,
                    out_buf@.len() == buf@.len(),
                    forall|jj: int|
                        0 <= jj < tile_len ==> #[trigger] out_buf@[jj] == apply_op(
                            op,
                            jj % 4,
                            buf@[jj],
                        ),
                    forall|rr: int, kk: int|
                        0 <= rr < rows && 0 <= kk < cols * 4 ==> #[trigger] buf@[rr * (cols * 4)
                            + kk] == srcv[((gy0 + rr) * w + gx0) * 4 + kk],
                    forall|gi: int|
                        0 <= gi < total && !in_tile(gi, gy0 as int, gx0 as int, rows as int, cols
                            as int, w as int) ==> #[trigger] canvas@[gi] == canvas_before[gi],
                    forall|rr: int, kk: int|
                        0 <= rr < r2 && 0 <= kk < cols * 4 ==> #[trigger] canvas@[((gy0 + rr) * w
                            + gx0) * 4 + kk] == out_buf@[rr * (cols * 4) + kk],
                decreases rows - r2,
            {
                proof {
                    assert(((gy0 + r2) * w + gx0) * 4 + cols * 4 <= total) by (nonlinear_arith)
                        requires
                            total == w * h * 4,
                            gy0 + r2 < h,
                            gx0 + cols <= w,
                            0 <= gy0,
                            0 <= gx0,
                            0 <= r2,
                            0 < w,
                    ;
                    assert(r2 * (cols * 4) + cols * 4 <= rows * (cols * 4)) by (nonlinear_arith)
                        requires
                            r2 < rows,
                    ;
                    assert(rows * (cols * 4) == rows * cols * 4) by (nonlinear_arith);
                }
                let row_dst_base = ((gy0 + r2) * w + gx0) * 4;
                let row_buf_base = r2 * (cols * 4);
                let mut k2: usize = 0;
                let ghost canvas_row_pre = canvas@;
                proof {
                    assert(out_buf@.len() == tile_len);
                }
                while k2 < cols * 4
                    invariant
                        canvas@.len() == total,
                        canvas_row_pre.len() == total,
                        k2 <= cols * 4,
                        row_dst_base == ((gy0 + r2) * w + gx0) * 4,
                        row_buf_base == r2 * (cols * 4),
                        row_dst_base + cols * 4 <= total,
                        row_buf_base + cols * 4 <= out_buf@.len(),
                        row_buf_base + cols * 4 <= usize::MAX,
                        out_buf@.len() == tile_len,
                        forall|gi: int|
                            0 <= gi < total && !(row_dst_base <= gi < row_dst_base + k2)
                                ==> #[trigger] canvas@[gi] == canvas_row_pre[gi],
                        forall|kk: int|
                            0 <= kk < k2 ==> #[trigger] canvas@[row_dst_base + kk]
                                == out_buf@[row_buf_base + kk],
                    decreases cols * 4 - k2,
                {
                    canvas.set(row_dst_base + k2, out_buf[row_buf_base + k2]);
                    k2 = k2 + 1;
                }
                r2 = r2 + 1;
                proof {
                    lemma_row_write(
                        canvas@,
                        canvas_row_pre,
                        canvas_before,
                        out_buf@,
                        srcv,
                        gy0 as int,
                        gx0 as int,
                        rows as int,
                        cols as int,
                        w as int,
                        h as int,
                        total as int,
                        r2 as int,
                        row_dst_base as int,
                        row_buf_base as int,
                    );
                }
            }

            tracker.release(tile_bytes);
            proof {
                lemma_tile_done(
                    canvas@,
                    canvas_before,
                    out_buf@,
                    buf@,
                    srcv,
                    op,
                    gy0 as int,
                    gx0 as int,
                    rows as int,
                    cols as int,
                    w as int,
                    total as int,
                );
                assert forall|gy: int, gx: int, ch: int|
                    0 <= gy < h && 0 <= gx < w && 0 <= ch < 4 && (gy < gy0 || (gy0 <= gy < gy0
                        + rows && gx < gx0 + cols)) implies #[trigger] cell_ok(
                    canvas@,
                    srcv,
                    op,
                    w as int,
                    gx,
                    gy,
                    ch,
                ) by {
                    if gy0 <= gy < gy0 + rows && gx0 <= gx < gx0 + cols {
                        assert(cell_ok(canvas@, srcv, op, w as int, gx, gy, ch));
                    } else {
                        assert(cell_ok(canvas_before, srcv, op, w as int, gx, gy, ch));
                        lemma_cell_outside(
                            gy0 as int,
                            gx0 as int,
                            rows as int,
                            cols as int,
                            w as int,
                            h as int,
                            total as int,
                            gy,
                            gx,
                            ch,
                        );
                        assert(canvas@[(gy * (w as int) + gx) * 4 + ch] == canvas_before[(gy * (
                        w as int) + gx) * 4 + ch]);
                    }
                }
            }
            gx0 = gx0 + cols;
        }
        proof {
            assert forall|gy: int, gx: int, ch: int|
                0 <= gy < gy0 + rows && 0 <= gx < w && 0 <= ch < 4 implies #[trigger] cell_ok(
                canvas@,
                srcv,
                op,
                w as int,
                gx,
                gy,
                ch,
            ) by {
                if gy >= gy0 {
                    assert(cell_ok(canvas@, srcv, op, w as int, gx, gy, ch));
                }
            }
        }
        gy0 = gy0 + rows;
    }
    proof {
        assert forall|i: int| 0 <= i < total implies #[trigger] canvas@[i] == apply_op(
            op,
            i % 4,
            srcv[i],
        ) by {
            lemma_stitch(canvas@, srcv, op, w as int, h as int, total as int, i);
        }
    }
    Ok(PixelImage::from_raw(width, height, canvas))
}

/// Whether a flat byte index lies inside a tile's rows and columns.
pub open spec fn in_tile(gi: int, gy0: int, gx0: int, rows: int, cols: int, w: int) -> bool {
    exists|rr: int, kk: int|
        0 <= rr < rows && 0 <= kk < cols * 4 && gi == #[trigger] vstd::math::add(
            ((gy0 + rr) * w + gx0) * 4,
            kk,
        )
}

/// After one row of a tile is written, the canvas holds the transformed
/// bytes of the rows written so far and nothing else changed.
proof fn lemma_row_write(
    canvas: Seq<u8>,
    canvas_row_pre: Seq<u8>,
    canvas_before: Seq<u8>,
    out_buf: Seq<u8>,
    srcv: Seq<u8>,
    gy0: int,
    gx0: int,
    rows: int,
    cols: int,
    w: int,
    h_bound: int,
    total: int,
    r2: int,
    row_dst_base: int,
    row_buf_base: int,
)
    requires
        canvas.len() == total,
        canvas_row_pre.len() == total,
        canvas_before.len() == total,
        total == w * h_bound * 4,
        gy0 + rows <= h_bound,
        1 <= r2 <= rows,
        0 < w,
        0 <= gy0,
        0 <= gx0,
        0 < cols,
        gx0 + cols <= w,
        row_dst_base == ((gy0 + (r2 - 1)) * w + gx0) * 4,
        row_buf_base == (r2 - 1) * (cols * 4),
        row_dst_base + cols * 4 <= total,
        forall|gi: int|
            0 <= gi < total && !(row_dst_base <= gi < row_dst_base + cols * 4)
                ==> #[trigger] canvas[gi] == canvas_row_pre[gi],
        forall|kk: int|
            0 <= kk < cols * 4 ==> #[trigger] canvas[row_dst_base + kk] == out_buf[row_buf_base
                + kk],
        forall|gi: int|
            0 <= gi < total && !in_tile(gi, gy0, gx0, rows, cols, w) ==> #[trigger] canvas_row_pre[gi]
                == canvas_before[gi],
        forall|rr: int, kk: int|
            0 <= rr < r2 - 1 && 0 <= kk < cols * 4 ==> #[trigger] canvas_row_pre[((gy0 + rr) * w
                + gx0) * 4 + kk] == out_buf[rr * (cols * 4) + kk],
    ensures
        forall|gi: int|
            0 <= gi < total && !in_tile(gi, gy0, gx0, rows, cols, w) ==> #[trigger] canvas[gi]
                == canvas_before[gi],
        forall|rr: int, kk: int|
            0 <= rr < r2 && 0 <= kk < cols * 4 ==> #[trigger] canvas[((gy0 + rr) * w + gx0) * 4
                + kk] == out_buf[rr * (cols * 4) + kk],
{
    assert forall|gi: int|
        0 <= gi < total && !in_tile(gi, gy0, gx0, rows, cols, w) implies #[trigger] canvas[gi]
        == canvas_before[gi] by {
        if row_dst_base <= gi < row_dst_base + cols * 4 {
            let kk = gi - row_dst_base;
            assert(gi == vstd::math::add(((gy0 + (r2 - 1)) * w + gx0) * 4, kk));
            assert(in_tile(gi, gy0, gx0, rows, cols, w));
        } else {
            assert(canvas[gi] == canvas_row_pre[gi]);
        }
    }
    assert forall|rr: int, kk: int|
        0 <= rr < r2 && 0 <= kk < cols * 4 implies #[trigger] canvas[((gy0 + rr) * w + gx0) * 4
            + kk] == out_buf[rr * (cols * 4) + kk] by {
        let base = ((gy0 + rr) * w + gx0) * 4;
        if rr == r2 - 1 {
            assert(canvas[row_dst_base + kk] == out_buf[row_buf_base + kk]);
        } else {
            // this byte lies in an earlier row of the tile, outside the one
            // just written
            assert(base + kk < row_dst_base) by (nonlinear_arith)
                requires
                    base == ((gy0 + rr) * w + gx0) * 4,
                    row_dst_base == ((gy0 + (r2 - 1)) * w + gx0) * 4,
                    0 <= rr < r2 - 1,
                    0 <= kk < cols * 4,
                    gx0 + cols <= w,
                    0 < w,
                    0 <= gx0,
                    0 <= gy0,
            ;
            assert(0 <= base + kk < total) by (nonlinear_arith)
                requires
                    base == ((gy0 + rr) * w + gx0) * 4,
                    total == w * h_bound * 4,
                    0 <= rr,
                    gy0 + rr < h_bound,
                    0 <= kk < cols * 4,
                    gx0 + cols <= w,
                    0 < w,
                    0 <= gx0,
                    0 <= gy0,
            ;
            assert(canvas[base + kk] == canvas_row_pre[base + kk]);
            assert(canvas_row_pre[base + kk] == out_buf[rr * (cols * 4) + kk]);
        }
    }
}

/// After a whole tile is written, every cell of the tile is the point-wise
/// image of the source, and everything outside it is untouched.
proof fn lemma_tile_done(
    canvas: Seq<u8>,
    canvas_before: Seq<u8>,
    out_buf: Seq<u8>,
    buf: Seq<u8>,
    srcv: Seq<u8>,
    op: PointOp,
    gy0: int,
    gx0: int,
    rows: int,
    cols: int,
    w: int,
    total: int,
)
    requires
        canvas.len() == total,
        canvas_before.len() == total,
        srcv.len() == total,
        0 < w,
        0 <= gy0,
        0 <= gx0,
        0 < rows,
        0 < cols,
        gx0 + cols <= w,
        buf.len() == rows * cols * 4,
        out_buf.len() == buf.len(),
        forall|jj: int| 0 <= jj < buf.len() ==> #[trigger] out_buf[jj] == apply_op(op, jj % 4, buf[jj]),
        forall|rr: int, kk: int|
            0 <= rr < rows && 0 <= kk < cols * 4 ==> #[trigger] buf[rr * (cols * 4) + kk]
                == srcv[((gy0 + rr) * w + gx0) * 4 + kk],
        forall|gi: int|
            0 <= gi < total && !in_tile(gi, gy0, gx0, rows, cols, w) ==> #[trigger] canvas[gi]
                == canvas_before[gi],
        forall|rr: int, kk: int|
            0 <= rr < rows && 0 <= kk < cols * 4 ==> #[trigger] canvas[((gy0 + rr) * w + gx0) * 4
                + kk] == out_buf[rr * (cols * 4) + kk],
    ensures
        forall|gy: int, gx: int, ch: int|
            gy0 <= gy < gy0 + rows && gx0 <= gx < gx0 + cols && 0 <= ch < 4 ==> #[trigger] cell_ok(
                canvas,
                srcv,
                op,
                w,
                gx,
                gy,
                ch,
            ),
        forall|gi: int|
            0 <= gi < total && !in_tile(gi, gy0, gx0, rows, cols, w) ==> #[trigger] canvas[gi]
                == canvas_before[gi],
{
    assert forall|gy: int, gx: int, ch: int|
        gy0 <= gy < gy0 + rows && gx0 <= gx < gx0 + cols && 0 <= ch < 4 implies #[trigger] cell_ok(
        canvas,
        srcv,
        op,
        w,
        gx,
        gy,
        ch,
    ) by {
        let rr = gy - gy0;
        let kk = (gx - gx0) * 4 + ch;
        assert(0 <= kk < cols * 4) by (nonlinear_arith)
            requires
                0 <= gx - gx0 < cols,
                0 <= ch < 4,
                kk == (gx - gx0) * 4 + ch,
        ;
        let local = rr * (cols * 4) + kk;
        assert(local < rows * cols * 4 && 0 <= local) by (nonlinear_arith)
            requires
                0 <= rr < rows,
                0 <= kk < cols * 4,
                local == rr * (cols * 4) + kk,
        ;
        assert(canvas[((gy0 + rr) * w + gx0) * 4 + kk] == out_buf[local]);
        assert(out_buf[local] == apply_op(op, local % 4, buf[local]));
        assert(buf[local] == srcv[((gy0 + rr) * w + gx0) * 4 + kk]);
        let m = rr * cols + (gx - gx0);
        assert(local == 4 * m + ch) by (nonlinear_arith)
            requires
                local == rr * (cols * 4) + kk,
                kk == (gx - gx0) * 4 + ch,
                m == rr * cols + (gx - gx0),
        ;
        vstd::arithmetic::div_mod::lemma_fundamental_div_mod_converse(local, 4, m, ch);
        assert(((gy0 + rr) * w + gx0) * 4 + kk == (gy * w + gx) * 4 + ch) by (nonlinear_arith)
            requires
                rr == gy - gy0,
                kk == (gx - gx0) * 4 + ch,
        ;
    }
}

/// A cell outside a tile's rectangle has a flat index outside the tile's
/// byte range, and so is untouched by writing the tile.
proof fn lemma_cell_outside(
    gy0: int,
    gx0: int,
    rows: int,
    cols: int,
    w: int,
    h: int,
    total: int,
    gy: int,
    gx: int,
    ch: int,
)
    requires
        0 < w,
        0 <= gy0,
        0 <= gx0,
        0 < rows,
        0 < cols,
        gx0 + cols <= w,
        gy0 + rows <= h,
        total == w * h * 4,
        0 <= gy < h,
        0 <= gx < w,
        0 <= ch < 4,
        gy < gy0 || (gy < gy0 + rows && gx < gx0),
    ensures
        0 <= (gy * w + gx) * 4 + ch < total,
        !in_tile((gy * w + gx) * 4 + ch, gy0, gx0, rows, cols, w),
{
    let gi = (gy * w + gx) * 4 + ch;
    assert(0 <= gi < total) by (nonlinear_arith)
        requires
            gi == (gy * w + gx) * 4 + ch,
            0 <= gy < h,
            0 <= gx < w,
            0 <= ch < 4,
            total == w * h * 4,
            0 < w,
    ;
    if in_tile(gi, gy0, gx0, rows, cols, w) {
        let (rr, kk): (int, int) = choose|rr: int, kk: int|
            0 <= rr < rows && 0 <= kk < cols * 4 && gi == #[trigger] vstd::math::add(
                ((gy0 + rr) * w + gx0) * 4,
                kk,
            );
        let cx = kk / 4;
        let cc = kk % 4;
        vstd::arithmetic::div_mod::lemma_fundamental_div_mod(kk, 4);
        vstd::arithmetic::div_mod::lemma_mod_bound(kk, 4);
        assert(0 <= cx < cols) by (nonlinear_arith)
            requires
                kk == 4 * cx + cc,
                0 <= cc < 4,
                0 <= kk < cols * 4,
        ;
        assert(gi == ((gy0 + rr) * w + (gx0 + cx)) * 4 + cc) by (nonlinear_arith)
            requires
                gi == ((gy0 + rr) * w + gx0) * 4 + kk,
                kk == 4 * cx + cc,
        ;
        // two pixel/channel decompositions of the same flat index agree
        assert(gi == 4 * (gy * w + gx) + ch) by (nonlinear_arith)
            requires
                gi == (gy * w + gx) * 4 + ch,
        ;
        assert(gi == 4 * ((gy0 + rr) * w + (gx0 + cx)) + cc) by (nonlinear_arith)
            requires
                gi == ((gy0 + rr) * w + (gx0 + cx)) * 4 + cc,
        ;
        vstd::arithmetic::div_mod::lemma_fundamental_div_mod_converse(
            gi,
            4,
            gy * w + gx,
            ch,
        );
        vstd::arithmetic::div_mod::lemma_fundamental_div_mod_converse(
            gi,
            4,
            (gy0 + rr) * w + (gx0 + cx),
            cc,
        );
        let p = gy * w + gx;
        assert(p == (gy0 + rr) * w + (gx0 + cx));
        assert(p == w * gy + gx) by (nonlinear_arith)
            requires
                p == gy * w + gx,
        ;
        assert(p == w * (gy0 + rr) + (gx0 + cx)) by (nonlinear_arith)
            requires
                p == (gy0 + rr) * w + (gx0 + cx),
        ;
        vstd::arithmetic::div_mod::lemma_fundamental_div_mod_converse(p, w, gy, gx);
        vstd::arithmetic::div_mod::lemma_fundamental_div_mod_converse(
            p,
            w,
            gy0 + rr,
            gx0 + cx,
        );
        assert(gy == gy0 + rr && gx == gx0 + cx);
        assert(false);
    }
}

/// A flat byte index splits uniquely into its pixel row, column and channel.
proof fn lemma_stitch(
    canvas: Seq<u8>,
    srcv: Seq<u8>,
    op: PointOp,
    w: int,
    h: int,
    total: int,
    i: int,
)
    requires
        total == w * h * 4,
        0 <= i < total,
        0 < w,
        forall|gy: int, gx: int, ch: int|
            0 <= gy < h && 0 <= gx < w && 0 <= ch < 4 ==> #[trigger] cell_ok(
                canvas,
                srcv,
                op,
                w,
                gx,
                gy,
                ch,
            ),
    ensures
        canvas[i] == apply_op(op, i % 4, srcv[i]),
{
    let ch = i % 4;
    let p = i / 4;
    let gx = p % w;
    let gy = p / w;
    vstd::arithmetic::div_mod::lemma_fundamental_div_mod(i, 4);
    vstd::arithmetic::div_mod::lemma_fundamental_div_mod(p, w);
    assert(0 <= ch < 4) by {
        vstd::arithmetic::div_mod::lemma_mod_bound(i, 4);
    }
    assert(0 <= gx < w) by {
        vstd::arithmetic::div_mod::lemma_mod_bound(p, w);
    }
    assert(0 <= gy < h) by (nonlinear_arith)
        requires
            total == w * h * 4,
            0 <= i < total,
            i == 4 * p + ch,
            p == w * gy + gx,
            0 <= ch < 4,
            0 <= gx < w,
            0 < w,
    ;
    assert(cell_ok(canvas, srcv, op, w, gx, gy, ch));
    assert((gy * w + gx) * 4 + ch == i) by (nonlinear_arith)
        requires
            i == 4 * p + ch,
            p == w * gy + gx,
    ;
}

} // verus!

verus! {

/// The tiled and the whole-image paths agree: any two outputs that satisfy
/// the point-wise contract for the same source hold exactly the same bytes.
pub proof fn lemma_tiled_equals_full(
    tiled: crate::values::PixelImageView,
    full: crate::values::PixelImageView,
    img: crate::values::PixelImageView,
    op: PointOp,
)
    requires
        tiled.data.len() == img.data.len(),
        full.data.len() == img.data.len(),
        forall|i: int|
            0 <= i < img.data.len() ==> #[trigger] tiled.data[i] == apply_op(
                op,
                i % 4,
                img.data[i],
            ),
        forall|i: int|
            0 <= i < img.data.len() ==> #[trigger] full.data[i] == apply_op(
                op,
                i % 4,
                img.data[i],
            ),
    ensures
        tiled.data == full.data,
{
    assert(tiled.data =~= full.data);
}

} // verus!
