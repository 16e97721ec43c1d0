use ditherrific::algorithms::clamp_and_truncate;
use ditherrific::algorithms::clamp_to_zero;
use ditherrific::algorithms::process;
use ditherrific::algorithms::ErrorDiffusion;
use ditherrific::algorithms::Options;
use ditherrific::transform;
use ditherrific::Image;
use ditherrific::ImageError;

const ALL_OPTIONS: [Options; 7] = [
    Options::FloydSteinberg,
    Options::Aktinson,
    Options::Burkes,
    Options::Sierra,
    Options::SierraTwoRow,
    Options::SierraLite,
    Options::NoDiffusion,
];

#[test]
fn all_black() {
    let img = Image {
        width: 3,
        height: 3,
        pixels: vec![0, 0, 0, 0, 0, 0, 0, 0, 0],
    };
    let ed = ErrorDiffusion::new([[1, 2, 3], [4, 5, 7], [7, 8, 9]], (1, 1));

    let img = process(img, ed);

    assert_eq!(img.pixels, vec![0, 0, 0, 0, 0, 0, 0, 0, 0]);
}

#[test]
fn all_white() {
    let img = Image {
        width: 3,
        height: 3,
        pixels: vec![255, 255, 255, 255, 255, 255, 255, 255, 255],
    };
    let ed = ErrorDiffusion::new([[1, 2, 3], [4, 5, 7], [7, 8, 9]], (1, 1));

    let img = process(img, ed);

    assert_eq!(
        img.pixels,
        vec![255, 255, 255, 255, 255, 255, 255, 255, 255]
    );
}

#[test]
fn shift_left() {
    let img = Image {
        width: 3,
        height: 1,
        pixels: vec![60, 60, 60],
    };
    let ed = ErrorDiffusion::new([[0, 1]], (0, 0));

    let img = process(img, ed);

    assert_eq!(img.pixels, vec![0, 0, 255]);
}

#[test]
fn shift_left2() {
    let img = Image {
        width: 3,
        height: 1,
        pixels: vec![60, 60, 60],
    };
    let ed = ErrorDiffusion::new([[0, 1]], (1, 0));

    let img = process(img, ed);

    assert_eq!(img.pixels, vec![60, 60, 60]);
}

#[test]
fn floyd_steinberg_two_by_two_exact() {
    let img = Image::new(2, 2, vec![100, 100, 100, 100]).unwrap();
    let out = transform(img, Options::FloydSteinberg);
    assert_eq!(out.pixels(), &vec![0, 255, 255, 0]);
}

#[test]
fn zero_size_kernel_only_thresholds() {
    let img = Image::new(3, 2, vec![0, 127, 128, 255, 60, 200]).unwrap();
    let out = transform(img, Options::NoDiffusion);
    assert_eq!(out.pixels(), &vec![0, 0, 255, 255, 0, 255]);
}

#[test]
fn presets_give_black_and_white_of_same_size() {
    let mut samples = Vec::new();
    for i in 0..35u32 {
        samples.push((i * 7 % 256) as u8);
    }
    for o in ALL_OPTIONS {
        let img = Image::new(7, 5, samples.clone()).unwrap();
        let out = transform(img, o);
        assert_eq!(out.width, 7);
        assert_eq!(out.height, 5);
        assert_eq!(out.pixels().len(), 35);
        assert!(out.pixels().iter().all(|&v| v == 0 || v == 255));
    }
}

#[test]
fn presets_keep_all_black_and_all_white() {
    for o in ALL_OPTIONS {
        let out = transform(Image::new(4, 3, vec![0; 12]).unwrap(), o);
        assert_eq!(out.pixels(), &vec![0; 12]);
        let out = transform(Image::new(4, 3, vec![255; 12]).unwrap(), o);
        assert_eq!(out.pixels(), &vec![255; 12]);
    }
}

#[test]
fn empty_image_stays_empty() {
    let out = transform(Image::new(0, 0, vec![]).unwrap(), Options::Sierra);
    assert_eq!(out.width, 0);
    assert_eq!(out.height, 0);
    assert!(out.pixels().is_empty());
}

#[test]
fn new_rejects_wrong_sample_count() {
    assert_eq!(Image::new(2, 2, vec![1, 2, 3]).err(), Some(ImageError::ShapeMismatch));
    assert!(Image::new(2, 2, vec![1, 2, 3, 4]).is_ok());
}

#[test]
fn from_rgb_takes_luminance() {
    let img = Image::from_rgb(2, 1, vec![255, 255, 255, 255, 10, 20, 30, 0]).unwrap();
    assert_eq!(img.pixels(), &vec![255, 18]);
    assert_eq!(
        Image::from_rgb(2, 1, vec![1, 2, 3, 4]).err(),
        Some(ImageError::ShapeMismatch)
    );
}

#[test]
fn to_rgb_replicates_gray() {
    let img = Image::new(2, 1, vec![0, 200]).unwrap();
    assert_eq!(img.to_rgb(), vec![0, 0, 0, 255, 200, 200, 200, 255]);
}

#[test]
fn pixel_access_off_canvas() {
    let mut img = Image::new(2, 2, vec![1, 2, 3, 4]).unwrap();
    assert_eq!(img.get_pixel(1, 1), Some(4));
    assert_eq!(img.get_pixel(-1, 0), None);
    assert_eq!(img.get_pixel(0, 2), None);
    assert_eq!(img.get_at(2, 0), None);
    img.set_pixel(0, 1, 9);
    img.set_pixel(-1, 0, 7);
    img.set_pixel(2, 0, 7);
    img.set_at(1, 0, 8);
    img.set_at(0, 5, 7);
    assert_eq!(img.pixels(), &vec![1, 8, 9, 4]);
}

#[test]
fn kernel_taps_and_sum() {
    let ed = Options::FloydSteinberg.kernel();
    assert_eq!(ed.get(2, 0), 7);
    assert_eq!(ed.get(0, 1), 3);
    assert_eq!(ed.weight_sum(), 16);
    assert_eq!(Options::Aktinson.kernel().weight_sum(), 6);
    assert_eq!(Options::Burkes.kernel().weight_sum(), 32);
    assert_eq!(Options::Sierra.kernel().weight_sum(), 32);
    assert_eq!(Options::SierraTwoRow.kernel().weight_sum(), 16);
    assert_eq!(Options::SierraLite.kernel().weight_sum(), 4);
    assert_eq!(Options::NoDiffusion.kernel().weight_sum(), 0);
}

#[test]
fn byte_conversion_clamps_then_truncates() {
    assert_eq!(clamp_and_truncate(-5, 16), 0);
    assert_eq!(clamp_and_truncate(0, 16), 0);
    assert_eq!(clamp_and_truncate(2300, 16), 143);
    assert_eq!(clamp_and_truncate(255 * 16, 16), 255);
    assert_eq!(clamp_and_truncate(10_000, 16), 255);
}

#[test]
fn coordinate_subtraction_stops_at_zero() {
    assert_eq!(clamp_to_zero(5, 2), 3);
    assert_eq!(clamp_to_zero(2, 2), 0);
    assert_eq!(clamp_to_zero(1, 2), 0);
}
