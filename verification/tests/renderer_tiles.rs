use insploray::renderer::{tile_jobs, TileJob};

#[test]
fn tiles_of_exact_multiple() {
    let jobs = tile_jobs(64, 32, 32);
    assert_eq!(
        jobs,
        vec![
            TileJob { tile_x: 0, tile_y: 0, tile_width: 32, tile_height: 32 },
            TileJob { tile_x: 32, tile_y: 0, tile_width: 32, tile_height: 32 },
        ]
    );
}

#[test]
fn last_tiles_are_clipped() {
    let jobs = tile_jobs(70, 40, 32);
    assert_eq!(jobs.len(), 6);
    assert_eq!(jobs[2], TileJob { tile_x: 64, tile_y: 0, tile_width: 6, tile_height: 32 });
    assert_eq!(jobs[3], TileJob { tile_x: 0, tile_y: 32, tile_width: 32, tile_height: 8 });
    assert_eq!(jobs[5], TileJob { tile_x: 64, tile_y: 32, tile_width: 6, tile_height: 8 });
}

#[test]
fn tiles_cover_every_pixel_once() {
    let (w, h) = (45u32, 23u32);
    let jobs = tile_jobs(w, h, 8);
    let mut hits = vec![0u32; (w * h) as usize];
    for j in &jobs {
        assert!(j.tile_x + j.tile_width <= w && j.tile_y + j.tile_height <= h);
        for y in j.tile_y..j.tile_y + j.tile_height {
            for x in j.tile_x..j.tile_x + j.tile_width {
                hits[(y * w + x) as usize] += 1;
            }
        }
    }
    assert!(hits.iter().all(|&c| c == 1));
}

#[test]
fn empty_frame_has_no_jobs() {
    assert!(tile_jobs(0, 0, 32).is_empty());
    assert!(tile_jobs(10, 0, 32).is_empty());
}
