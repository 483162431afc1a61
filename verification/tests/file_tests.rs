use cascading_timers::config::Config;
use cascading_timers::icon::choose_icon;

#[test]
fn settings_file_round_trip() {
    let mut c = Config::default();
    c.interval = "0:10:00".to_string();
    c.timer_count = "12".to_string();
    c.sound_file = "/home/me/bell.wav".to_string();
    c.progress_bar_mode = true;
    c.randomize_gaussian = true;
    c.randomize_sigma = "2.5".to_string();
    let text = c.to_ini();
    let back = Config::from_ini(&text);
    assert_eq!(back.interval, "0:10:00");
    assert_eq!(back.timer_count, "12");
    assert_eq!(back.sound_file, "/home/me/bell.wav");
    assert_eq!(back.final_sound_file, "");
    assert!(back.progress_bar_mode && back.randomize_gaussian);
    assert!(!back.geometric_enabled && !back.randomize_enabled);
    assert_eq!(back.randomize_sigma, "2.5");
    assert_eq!(back.geometric_ratio, "");
}

#[test]
fn settings_file_reading() {
    let c = Config::from_ini(&"[Settings]\nInterval = 90 \nprogress_bar_mode=TRUE\ngeometric_enabled=yes\n".to_string());
    assert_eq!(c.interval, "90");
    assert!(c.progress_bar_mode);
    assert!(!c.geometric_enabled, "only `true` in any case turns a flag on");
    assert_eq!(c.timer_count, "");
    let bad = Config::from_ini(&"[Settings\ninterval=5\n".to_string());
    assert_eq!(bad.interval, "", "a text that is not INI gives the defaults");
    let empty = Config::from_ini(&String::new());
    assert_eq!(empty.interval, "");
}

#[test]
fn icon_first_decodable_file_wins() {
    let img = image::RgbaImage::from_pixel(2, 3, image::Rgba([1, 2, 3, 255]));
    let mut buf = std::io::Cursor::new(Vec::new());
    image::DynamicImage::ImageRgba8(img)
        .write_to(&mut buf, image::ImageFormat::Ico)
        .unwrap();
    let ico = buf.into_inner();
    let icon = choose_icon(&vec![vec![0u8, 1, 2, 3], ico]);
    assert_eq!((icon.width, icon.height), (2, 3));
    assert_eq!(icon.rgba.len(), 2 * 3 * 4);
    assert_eq!(&icon.rgba[0..4], &[1, 2, 3, 255]);
}

#[test]
fn icon_falls_back_when_nothing_decodes() {
    let icon = choose_icon(&vec![]);
    assert_eq!((icon.width, icon.height), (32, 32));
    let icon = choose_icon(&vec![b"not an icon".to_vec()]);
    assert_eq!(icon.rgba.len(), 32 * 32 * 4);
    assert_eq!(&icon.rgba[0..4], &[0xFC, 0x03, 0x5E, 0xFF]);
}
