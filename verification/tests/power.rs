use powerchecker::power::{image_level, watts_to_level, DisplayLevel, PowerLevel};

#[test]
fn gauge_levels() {
    assert_eq!(watts_to_level(0), DisplayLevel::Unknown);
    assert_eq!(watts_to_level(1), DisplayLevel::Low);
    assert_eq!(watts_to_level(299), DisplayLevel::Low);
    assert_eq!(watts_to_level(300), DisplayLevel::Mid);
    assert_eq!(watts_to_level(1199), DisplayLevel::Mid);
    assert_eq!(watts_to_level(1200), DisplayLevel::High);
}

#[test]
fn image_levels() {
    assert_eq!(image_level(0), PowerLevel::Low);
    assert_eq!(image_level(300), PowerLevel::Mid);
    assert_eq!(image_level(5000), PowerLevel::High);
    assert_eq!(PowerLevel::High.index(), 2);
    assert_eq!(PowerLevel::Mid.subdir(), "MID");
}

#[test]
fn gauge_and_image_agree_on_measured_power() {
    for w in [1u32, 150, 299, 300, 800, 1199, 1200, 3000] {
        let expected = match image_level(w) {
            PowerLevel::Low => DisplayLevel::Low,
            PowerLevel::Mid => DisplayLevel::Mid,
            PowerLevel::High => DisplayLevel::High,
        };
        assert_eq!(watts_to_level(w), expected);
    }
}
