use insploray::cli::{split_samples, worker_count, CliConfig};
use insploray::utils::pack_argb;

#[test]
fn workers_are_capped_by_cores() {
    assert_eq!(worker_count(None, 8), 8);
    assert_eq!(worker_count(Some(3), 8), 3);
    assert_eq!(worker_count(Some(8), 8), 8);
    assert_eq!(worker_count(Some(20), 8), 8);
}

#[test]
fn samples_shared_by_cores() {
    let shares = split_samples(64, &vec![0, 4, 8, 4]);
    assert_eq!(shares, vec![0, 16, 32, 16]);
    let uneven = split_samples(10, &vec![0, 3]);
    assert_eq!(uneven, vec![0, 9]);
    assert!(uneven.iter().sum::<u32>() <= 10);
}

#[test]
fn argb_packing() {
    assert_eq!(pack_argb(0xff, 0x12, 0x34, 0x56), 0xff123456);
    assert_eq!(pack_argb(0, 0, 0, 0), 0);
    assert_eq!(pack_argb(255, 255, 255, 255), 0xffffffff);
    let p = pack_argb(1, 2, 3, 4);
    assert_eq!(((p >> 24) & 0xff, (p >> 16) & 0xff, (p >> 8) & 0xff, p & 0xff), (1, 2, 3, 4));
}

#[test]
fn config_holds_its_fields() {
    let c = CliConfig {
        input_file_path: None,
        output: "out.exr".to_string(),
        samples: 64,
        seed: None,
        width: 1280,
        height: 720,
        tile: 32,
        bounces: 5,
        nthreads: Some(4),
    };
    assert_eq!(c.width * c.height, 921600);
    assert_eq!(c.output, "out.exr");
}
