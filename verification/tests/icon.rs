use switcheroo::icon::{half_to_byte, normalize_icon, Bitmap, IconData};

fn bitmap(width: u32, height: u32, bits_per_pixel: usize, data: Vec<u8>) -> Bitmap {
    Bitmap {
        width,
        height,
        bytes_per_row: width as usize * bits_per_pixel / 8,
        bits_per_pixel,
        data: Some(data),
    }
}

fn half_channel(bits: u16) -> u8 {
    (half::f16::from_bits(bits).to_f32().clamp(0.0, 1.0) * 255.0) as u8
}

#[test]
fn rgba_passes_through_unchanged() {
    let (width, height) = (5u32, 3u32);
    let data: Vec<u8> = (0..width * height * 4).map(|i| (i * 7 % 251) as u8).collect();
    let icon = normalize_icon(&bitmap(width, height, 32, data.clone())).unwrap();
    assert_eq!(icon.rgba.len(), (width * height * 4) as usize);
    assert_eq!(icon, IconData { width, height, rgba: data });
}

#[test]
fn rgb_gets_full_opacity() {
    let (width, height) = (5u32, 3u32);
    let data: Vec<u8> = (0..width * height * 3).map(|i| (i * 5 % 200) as u8).collect();
    let icon = normalize_icon(&bitmap(width, height, 24, data.clone())).unwrap();
    assert_eq!((icon.width, icon.height), (width, height));
    assert_eq!(icon.rgba.len(), (width * height * 4) as usize);
    for pixel in 0..(width * height) as usize {
        assert_eq!(icon.rgba[4 * pixel..4 * pixel + 3], data[3 * pixel..3 * pixel + 3]);
        assert_eq!(icon.rgba[4 * pixel + 3], 255);
    }
}

#[test]
fn rgb_example() {
    let icon = normalize_icon(&bitmap(2, 1, 24, vec![1, 2, 3, 4, 5, 6])).unwrap();
    assert_eq!(icon.rgba, vec![1, 2, 3, 255, 4, 5, 6, 255]);
}

#[test]
fn half_channels_are_clamped_and_scaled() {
    assert_eq!(half_to_byte(0x0000), 0);
    assert_eq!(half_to_byte(0x3c00), 255);
    assert_eq!(half_to_byte(0x3800), 127);
    assert_eq!(half_to_byte(0x3400), 63);
    assert_eq!(half_to_byte(0x3bff), 254);
    assert_eq!(half_to_byte(0x4000), 255);
    assert_eq!(half_to_byte(0x7c00), 255);
    assert_eq!(half_to_byte(0x7e00), 0);
    assert_eq!(half_to_byte(0xbc00), 0);
    assert_eq!(half_to_byte(0x8000), 0);
    assert_eq!(half_to_byte(0xfc00), 0);
    assert_eq!(half_to_byte(0x03ff), 0);
    assert_eq!(half_to_byte(0x1c04), 0);
    assert_eq!(half_to_byte(0x1c05), 1);
}

#[test]
fn half_channels_agree_with_floating_point_on_every_pattern() {
    for bits in 0..=u16::MAX {
        assert_eq!(half_to_byte(bits), half_channel(bits), "pattern {:#06x}", bits);
    }
}

#[test]
fn half_bitmap_is_converted_pixel_by_pixel() {
    let one = 0x3c00u16.to_le_bytes();
    let half = 0x3800u16.to_le_bytes();
    let zero = 0x0000u16.to_le_bytes();
    let mut data = Vec::new();
    for channel in [one, half, zero, one, zero, zero, half, half] {
        data.extend_from_slice(&channel);
    }
    let icon = normalize_icon(&bitmap(2, 1, 64, data)).unwrap();
    assert_eq!(icon, IconData { width: 2, height: 1, rgba: vec![255, 127, 0, 255, 0, 0, 127, 127] });
}

#[test]
fn half_bitmap_rows_may_be_padded() {
    let one = 0x3c00u16.to_le_bytes();
    let mut data = Vec::new();
    for _row in 0..2 {
        for _channel in 0..4 {
            data.extend_from_slice(&one);
        }
        data.extend_from_slice(&[9; 8]);
    }
    let padded = Bitmap {
        width: 1,
        height: 2,
        bytes_per_row: 16,
        bits_per_pixel: 64,
        data: Some(data.clone()),
    };
    assert_eq!(normalize_icon(&padded).unwrap().rgba, vec![255; 8]);
    let mut last_row_short = padded;
    last_row_short.data = Some(data[..24].to_vec());
    assert_eq!(normalize_icon(&last_row_short).unwrap().rgba, vec![255; 8]);
    last_row_short.data = Some(data[..23].to_vec());
    assert_eq!(normalize_icon(&last_row_short), None);
}

#[test]
fn other_depths_yield_nothing() {
    for depth in [0usize, 1, 8, 16, 48, 128] {
        assert_eq!(normalize_icon(&bitmap(2, 2, depth, vec![0; 64])), None);
    }
}

#[test]
fn a_failed_rasterization_yields_nothing() {
    let failed = Bitmap { width: 2, height: 2, bytes_per_row: 8, bits_per_pixel: 32, data: None };
    assert_eq!(normalize_icon(&failed), None);
}

#[test]
fn data_of_the_wrong_length_yields_nothing() {
    assert_eq!(normalize_icon(&bitmap(2, 2, 32, vec![0; 15])), None);
    assert_eq!(normalize_icon(&bitmap(2, 2, 32, vec![0; 17])), None);
    assert_eq!(normalize_icon(&bitmap(2, 2, 24, vec![0; 16])), None);
    assert_eq!(normalize_icon(&bitmap(2, 2, 64, vec![0; 31])), None);
    assert_eq!(normalize_icon(&bitmap(u32::MAX, u32::MAX, 32, Vec::new())), None);
}

#[test]
fn empty_bitmaps_normalize_to_empty_icons() {
    for depth in [24usize, 32, 64] {
        let icon = normalize_icon(&bitmap(0, 7, depth, Vec::new())).unwrap();
        assert_eq!(icon, IconData { width: 0, height: 7, rgba: Vec::new() });
    }
}
