use ambara::chunked::{
    apply_pointwise_full, isqrt64, process_pointwise, MemoryTracker, PointOp, ProcessingConfig,
    SpatialExtent, TileIterator, TileRegion, MAX_TILE_SIZE,
};
use ambara::values::PixelImage;

#[test]
fn test_tile_region() {
    let region = TileRegion::new(10, 20, 100, 200);
    assert_eq!(region.right(), 110);
    assert_eq!(region.bottom(), 220);
    assert_eq!(region.area(), 20000);
}

#[test]
fn test_tile_region_expand() {
    let region = TileRegion::new(50, 50, 100, 100);
    let expanded = region.expand_with_overlap(10, 200, 200);
    assert_eq!(expanded.x, 40);
    assert_eq!(expanded.y, 40);
    assert_eq!(expanded.width, 120);
    assert_eq!(expanded.height, 120);
}

#[test]
fn test_tile_region_expand_at_boundary() {
    let region = TileRegion::new(0, 0, 100, 100);
    let expanded = region.expand_with_overlap(10, 200, 200);
    assert_eq!(expanded.x, 0);
    assert_eq!(expanded.y, 0);
    assert_eq!(expanded.width, 110);
    assert_eq!(expanded.height, 110);
}

#[test]
fn test_tile_iterator() {
    let iter = TileIterator::new(1000, 1000, 256, 256);
    assert_eq!(iter.tile_count(), 16); // 4x4 tiles

    let mut it = TileIterator::new(100, 100, 64, 64);
    let mut tiles = Vec::new();
    while let Some(region) = it.next() {
        tiles.push(region);
    }
    assert_eq!(tiles.len(), 4); // 2x2 tiles

    assert_eq!(tiles[0].x, 0);
    assert_eq!(tiles[0].y, 0);
    assert_eq!(tiles[0].width, 64);
    assert_eq!(tiles[0].height, 64);

    assert_eq!(tiles[3].x, 64);
    assert_eq!(tiles[3].y, 64);
    assert_eq!(tiles[3].width, 36);
    assert_eq!(tiles[3].height, 36);
}

#[test]
fn test_processing_config() {
    let config = ProcessingConfig::new()
        .with_memory_limit_mb(512)
        .with_tile_size(256, 256);

    assert_eq!(config.memory_limit, 512 * 1024 * 1024);
    assert_eq!(config.tile_width, 256);
    assert_eq!(config.tile_height, 256);
}

#[test]
fn test_needs_chunking() {
    let config = ProcessingConfig::new().with_memory_limit_mb(100);

    // a small image needs no tiling
    assert!(!config.needs_chunking(100, 100));

    // a large one does
    assert!(config.needs_chunking(10000, 10000));
}

#[test]
fn test_spatial_extent() {
    let extent = SpatialExtent::symmetric(5);
    assert_eq!(extent.max_extent(), 5);
    assert!(extent.needs_overlap());

    let extent2 = SpatialExtent::asymmetric(1, 2, 3, 4);
    assert_eq!(extent2.max_extent(), 4);

    let combined = extent.combine(&extent2);
    assert_eq!(combined.left, 5);
    assert_eq!(combined.right, 5);
    assert_eq!(combined.top, 5);
    assert_eq!(combined.bottom, 5);
}

#[test]
fn test_memory_tracker() {
    let mut tracker = MemoryTracker::new(1000);

    assert!(tracker.try_allocate(500));
    assert_eq!(tracker.current_usage(), 500);
    assert_eq!(tracker.available(), 500);

    assert!(tracker.try_allocate(400));
    assert_eq!(tracker.current_usage(), 900);

    // over the limit: refused
    assert!(!tracker.try_allocate(200));

    tracker.release(500);
    assert_eq!(tracker.current_usage(), 400);
    assert_eq!(tracker.peak_usage(), 900);
}

#[test]
fn test_memory_tracker_release_restores() {
    let mut tracker = MemoryTracker::new(4096);
    let before = tracker.current_usage();
    assert!(tracker.try_allocate(1024));
    tracker.release(1024);
    assert_eq!(tracker.current_usage(), before);
    // the peak only ever climbs
    let peak1 = tracker.peak_usage();
    assert!(tracker.try_allocate(64));
    assert!(tracker.peak_usage() >= peak1);
}

#[test]
fn test_calculate_optimal_tile_size() {
    let config = ProcessingConfig::new()
        .with_memory_limit_mb(100)
        .with_tile_size(512, 512);

    // a small image keeps its full dimensions
    let (w, h) = config.calculate_optimal_tile_size(100, 100);
    assert_eq!((w, h), (100, 100));

    // a large one gets a bounded tile
    let (w, h) = config.calculate_optimal_tile_size(10000, 10000);
    assert!(w <= MAX_TILE_SIZE);
    assert!(h <= MAX_TILE_SIZE);
}

#[test]
fn test_isqrt() {
    assert_eq!(isqrt64(0), 0);
    assert_eq!(isqrt64(1), 1);
    assert_eq!(isqrt64(15), 3);
    assert_eq!(isqrt64(16), 4);
    assert_eq!(isqrt64(1 << 52), 1 << 26);
}

fn checkerboard(width: u32, height: u32) -> PixelImage {
    let mut data = Vec::with_capacity((width * height * 4) as usize);
    for y in 0..height {
        for x in 0..width {
            let v: u8 = if (x + y) % 2 == 0 { 30 } else { 200 };
            data.push(v);
            data.push(v.wrapping_add(17));
            data.push(v.wrapping_add(91));
            data.push(255);
        }
    }
    PixelImage::from_raw(width, height, data)
}

#[test]
fn test_pointwise_small_tiled_equals_full() {
    let img = checkerboard(50, 37);
    let config = ProcessingConfig::new()
        .with_memory_limit(64 * 64 * 12) // force several tiles
        .with_tile_size(64, 64);
    let tiled = process_pointwise(&img, &config, PointOp::Invert).ok().unwrap();
    let full = apply_pointwise_full(&img, PointOp::Invert);
    assert_eq!(tiled.bytes(), full.bytes());
    // the alpha channel passes through while colours invert
    assert_eq!(tiled.bytes()[0], 255 - 30);
    assert_eq!(tiled.bytes()[3], 255);
}

#[test]
fn test_pointwise_identity_keeps_bytes() {
    let img = checkerboard(33, 9);
    let config = ProcessingConfig::new();
    let out = process_pointwise(&img, &config, PointOp::Identity).ok().unwrap();
    assert_eq!(out.bytes(), img.bytes());
}

#[test]
fn test_chunked_equivalence_large() {
    // a 4096 by 4096 image under a 64 MiB budget forces tiling at the
    // preferred 256-pixel tiles; the inverted output matches the
    // whole-image inversion byte for byte
    let width = 4096u32;
    let height = 4096u32;
    let data = vec![123u8; (width as usize) * (height as usize) * 4];
    let img = PixelImage::from_raw(width, height, data);
    let config = ProcessingConfig::new()
        .with_memory_limit(64 * 1024 * 1024)
        .with_tile_size(256, 256);
    assert!(config.needs_chunking(width, height));
    let tiled = process_pointwise(&img, &config, PointOp::Invert).ok().unwrap();
    // spot-check against the point-wise definition across the image
    let bytes = tiled.bytes();
    assert_eq!(bytes.len(), img.bytes().len());
    let mut i = 0usize;
    while i < bytes.len() {
        let expected = if i % 4 < 3 { 255 - 123 } else { 123 };
        assert_eq!(bytes[i], expected);
        i += 997; // stride through the buffer
    }
}
