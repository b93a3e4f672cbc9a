use insploray::accumulators::{Accumulator, TileAccumulator};

#[test]
fn new_accumulator_is_empty() {
    let acc: Accumulator<u64> = Accumulator::new(4, 3);
    assert_eq!(acc.get_resolution(), [4, 3]);
    assert_eq!(acc.get_buffer(), vec![0u64; 12]);
    for i in 0..12 {
        assert_eq!(acc.get_pixel_samples(i), (0, 0));
    }
}

#[test]
fn accumulate_adds_one_sample() {
    let mut acc: Accumulator<u64> = Accumulator::new(4, 3);
    acc._accumulate(1, 2, 5, |a, b| a + b);
    acc._accumulate(1, 2, 7, |a, b| a + b);
    assert_eq!(acc.get_pixel_samples(2 * 4 + 1), (12, 2));
    assert_eq!(acc.get_pixel_samples(0), (0, 0));
}

#[test]
fn tile_accumulate() {
    let mut tile: TileAccumulator<u64> = TileAccumulator::new(2, 1, 2, 2);
    assert_eq!(tile.framebuffer, vec![0; 4]);
    tile.accumulate(1, 1, 3, |a, b| a + b);
    tile.accumulate(1, 1, 4, |a, b| a + b);
    tile.accumulate(0, 0, 1, |a, b| a + b);
    assert_eq!(tile.framebuffer, vec![1, 0, 0, 7]);
    assert_eq!(tile.sample_counts, vec![1, 0, 0, 2]);
}

#[test]
fn merge_tile_places_samples() {
    let mut acc: Accumulator<u64> = Accumulator::new(4, 3);
    let mut tile: TileAccumulator<u64> = TileAccumulator::new(2, 1, 2, 2);
    tile.accumulate(0, 0, 10, |a, b| a + b);
    tile.accumulate(1, 1, 20, |a, b| a + b);
    tile.accumulate(1, 1, 1, |a, b| a + b);
    acc._accumulate(2, 1, 5, |a, b| a + b);
    acc.merge_tile(tile, |a, b| a + b);
    // tile pixel (0,0) is image pixel (2,1); tile pixel (1,1) is image pixel (3,2)
    assert_eq!(acc.get_pixel_samples(1 * 4 + 2), (15, 2));
    assert_eq!(acc.get_pixel_samples(2 * 4 + 3), (21, 2));
    assert_eq!(acc.get_pixel_samples(1 * 4 + 3), (0, 0));
    assert_eq!(acc.get_pixel_samples(0), (0, 0));
}

#[test]
fn merge_whole_accumulators() {
    let mut a: Accumulator<u64> = Accumulator::new(2, 2);
    let mut b: Accumulator<u64> = Accumulator::new(2, 2);
    a._accumulate(0, 0, 1, |x, y| x + y);
    b._accumulate(0, 0, 2, |x, y| x + y);
    b._accumulate(1, 1, 3, |x, y| x + y);
    a._merge(b, |x, y| x + y);
    assert_eq!(a.get_buffer(), vec![3, 0, 0, 3]);
    assert_eq!(a.get_pixel_samples(0), (3, 2));
    assert_eq!(a.get_pixel_samples(3), (3, 1));
}

#[test]
fn accumulate_all_adds_one_sample_per_pixel() {
    let mut tile: TileAccumulator<u64> = TileAccumulator::new(2, 1, 3, 2);
    tile.accumulate_all(&vec![1, 2, 3, 4, 5, 6], |a, b| a + b);
    assert_eq!(tile.sample_counts, vec![1; 6]);
    assert_eq!(tile.framebuffer, vec![1, 2, 3, 4, 5, 6]);
    tile.accumulate_all(&vec![10; 6], |a, b| a + b);
    assert_eq!(tile.sample_counts, vec![2; 6]);
    assert_eq!(tile.framebuffer, vec![11, 12, 13, 14, 15, 16]);
}

#[test]
fn a_render_pass_adds_one_sample_to_every_pixel() {
    // a 3 by 3 image in tiles of side 2: jobs (0,0,2,2) (2,0,1,2) (0,2,2,1) (2,2,1,1)
    let jobs = insploray::renderer::tile_jobs(3, 3, 2);
    let mut acc: Accumulator<u64> = Accumulator::new(3, 3);
    acc._accumulate(1, 1, 100, |a, b| a + b);
    let tiles: Vec<TileAccumulator<u64>> = jobs
        .iter()
        .enumerate()
        .map(|(k, job)| {
            let mut tile = TileAccumulator::new(job.tile_x, job.tile_y, job.tile_width, job.tile_height);
            let n = (job.tile_width * job.tile_height) as usize;
            tile.accumulate_all(&vec![k as u64 + 1; n], |a, b| a + b);
            tile
        })
        .collect();
    acc.merge_pass(tiles, 2, |a, b| a + b);
    let expected_counts = [1, 1, 1, 1, 2, 1, 1, 1, 1];
    let expected_sums = [1, 1, 2, 1, 101, 2, 3, 3, 4];
    for i in 0..9 {
        assert_eq!(acc.get_pixel_samples(i), (expected_sums[i], expected_counts[i]));
    }
}
