use grey_engine::color::{rgb_channels, rgba_channels};

#[test]
fn rgb_channels_of_a_packed_colour() {
    assert_eq!(rgb_channels(0x4ECDC4), (0x4E, 0xCD, 0xC4));
    assert_eq!(rgb_channels(0xFF6B6B), (255, 107, 107));
    assert_eq!(rgb_channels(0x000000), (0, 0, 0));
    assert_eq!(rgb_channels(0xFFFFFF), (255, 255, 255));
    assert_eq!(rgb_channels(0x12345678), (0x34, 0x56, 0x78));
}

#[test]
fn rgba_channels_of_a_packed_colour() {
    assert_eq!(rgba_channels(0x12345678), (0x12, 0x34, 0x56, 0x78));
    assert_eq!(rgba_channels(0xFF000080), (255, 0, 0, 128));
    assert_eq!(rgba_channels(0), (0, 0, 0, 0));
    assert_eq!(rgba_channels(u32::MAX), (255, 255, 255, 255));
}
