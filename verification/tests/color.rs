use platformer::color::{compose_color, split_rgb, BLUE, GREEN, RED};

#[test]
fn compose_packs_red_highest() {
    assert_eq!(compose_color(0x12, 0x34, 0x56), 0x123456);
    assert_eq!(compose_color(0, 0, 0), 0);
    assert_eq!(compose_color(255, 255, 255), 0xFFFFFF);
}

#[test]
fn named_colours_are_pure_channels() {
    assert_eq!(compose_color(255, 0, 0), RED);
    assert_eq!(compose_color(0, 255, 0), GREEN);
    assert_eq!(compose_color(0, 0, 255), BLUE);
}

#[test]
fn split_reads_three_bytes() {
    assert_eq!(split_rgb(0x123456), (0x12, 0x34, 0x56));
    assert_eq!(split_rgb(RED), (255, 0, 0));
    assert_eq!(split_rgb(BLUE), (0, 0, 255));
    assert_eq!(split_rgb(0), (0, 0, 0));
}

#[test]
fn split_ignores_the_top_byte() {
    assert_eq!(split_rgb(0xAB123456), (0x12, 0x34, 0x56));
    assert_eq!(split_rgb(u32::MAX), (255, 255, 255));
}

#[test]
fn split_undoes_compose() {
    for (r, g, b) in [(0u32, 0u32, 0u32), (1, 2, 3), (255, 0, 128), (17, 255, 254)] {
        let (sr, sg, sb) = split_rgb(compose_color(r, g, b));
        assert_eq!((sr as u32, sg as u32, sb as u32), (r, g, b));
    }
}
