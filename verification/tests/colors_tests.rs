use wdttg::colors::{dim_rgb, find_client_color, find_tag_color, parse_hex};
use wdttg::config::create_default_config;

#[test]
fn parses_hex_colors_with_or_without_hash() {
    assert_eq!(parse_hex("#FF6B6B"), Some((255, 107, 107)));
    assert_eq!(parse_hex("4f46e5"), Some((0x4f, 0x46, 0xe5)));
}

#[test]
fn rejects_malformed_hex_colors() {
    assert_eq!(parse_hex("#FFF"), None);
    assert_eq!(parse_hex("#GG0000"), None);
    assert_eq!(parse_hex("##FF0000"), None);
    assert_eq!(parse_hex(""), None);
}

#[test]
fn a_plus_sign_reads_as_in_base_sixteen_parsing() {
    assert_eq!(parse_hex("#+F+F+F"), Some((15, 15, 15)));
    assert_eq!(parse_hex("#F+0000"), None);
}

#[test]
fn dimming_scales_each_part() {
    assert_eq!(dim_rgb((200, 100, 50), 25), (50, 25, 12));
    assert_eq!(dim_rgb((255, 255, 255), 15), (38, 38, 38));
    assert_eq!(dim_rgb((10, 20, 30), 0), (0, 0, 0));
}

#[test]
fn client_and_tag_colors_come_from_the_config() {
    let config = create_default_config();
    assert_eq!(find_client_color(&config, "personal"), Some("#4F46E5".to_string()));
    assert_eq!(find_client_color(&config, "nobody"), None);
    assert_eq!(find_tag_color(&config, "personal", "learning"), Some("#06B6D4".to_string()));
    assert_eq!(find_tag_color(&config, "personal", "research"), Some("#F59E0B".to_string()));
    assert_eq!(find_tag_color(&config, "personal", "missing"), None);
    assert_eq!(find_tag_color(&config, "nobody", "learning"), None);
}
