use nuonuo::mode::{fastest_mode, largest_size, preferred_mode, select_mode, Mode};

fn mode(width: u16, height: u16, vrefresh: u32, mode_type: u32) -> Mode {
    Mode { width, height, vrefresh, mode_type }
}

#[test]
fn preferred_size_at_the_fastest_rate_within_the_limit() {
    let modes = vec![
        mode(2560, 1440, 144, 0x40),
        mode(1920, 1080, 60, 0x48),
        mode(1920, 1080, 144, 0x40),
        mode(1920, 1080, 100, 0x40),
        mode(1920, 1080, 100, 0x60),
    ];
    assert_eq!(preferred_mode(&modes), Some(1));
    assert_eq!(select_mode(&modes), 3);
    assert_eq!(modes[3].size(), modes[1].size());
}

#[test]
fn first_preferred_mode_counts() {
    let modes = vec![mode(800, 600, 60, 0x40), mode(1024, 768, 60, 8), mode(1280, 720, 60, 8)];
    assert_eq!(preferred_mode(&modes), Some(1));
    assert_eq!(select_mode(&modes), 1);
}

#[test]
fn preferred_mode_where_all_are_too_fast() {
    let modes = vec![mode(800, 600, 60, 0), mode(1920, 1080, 240, 8), mode(1920, 1080, 144, 0)];
    assert_eq!(select_mode(&modes), 1);
}

#[test]
fn largest_size_without_preferred_mode() {
    let modes = vec![mode(1280, 1024, 75, 0), mode(1920, 1080, 50, 0), mode(1920, 1200, 59, 0)];
    assert_eq!(preferred_mode(&modes), None);
    assert_eq!(largest_size(&modes), (1920, 1200));
    assert_eq!(select_mode(&modes), 2);
}

#[test]
fn width_counts_before_height() {
    let modes = vec![mode(1600, 2000, 60, 0), mode(1601, 10, 60, 0)];
    assert_eq!(largest_size(&modes), (1601, 10));
}

#[test]
fn first_mode_where_nothing_fits() {
    let modes = vec![mode(640, 480, 60, 0), mode(1920, 1080, 144, 0)];
    assert_eq!(select_mode(&modes), 0);
}

#[test]
fn no_modes_have_no_size() {
    let modes: Vec<Mode> = Vec::new();
    assert_eq!(largest_size(&modes), (0, 0));
    assert_eq!(preferred_mode(&modes), None);
    assert_eq!(fastest_mode(&modes, (0, 0)), None);
}

#[test]
fn the_limit_itself_is_allowed() {
    let modes = vec![mode(1920, 1080, 101, 0), mode(1920, 1080, 100, 0)];
    assert_eq!(fastest_mode(&modes, (1920, 1080)), Some(1));
}

#[test]
fn other_bits_do_not_mark_a_preferred_mode() {
    let modes = vec![mode(1920, 1080, 60, 0xfffffff7), mode(640, 480, 60, 0xffffffff)];
    assert_eq!(preferred_mode(&modes), Some(1));
}
