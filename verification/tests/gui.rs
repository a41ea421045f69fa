use rslife::gui::speed::{faster, slower};
use rslife::gui::Theme;

#[test]
fn swap_goes_from_dark_to_light_and_back() {
    let mut theme = Theme::Dark;
    theme.swap();
    assert_eq!(theme, Theme::Light);
    theme.swap();
    assert_eq!(theme, Theme::Dark);
}

#[test]
fn slower_halves_the_rate_down_to_one() {
    assert_eq!(slower(30), 15);
    assert_eq!(slower(15), 7);
    assert_eq!(slower(2), 1);
    assert_eq!(slower(1), 1);
    assert_eq!(slower(0), 1);
    assert_eq!(slower(u64::MAX), u64::MAX / 2);
}

#[test]
fn faster_doubles_the_rate() {
    assert_eq!(faster(30), 60);
    assert_eq!(faster(0), 0);
    assert_eq!(faster(u64::MAX / 2), u64::MAX - 1);
}
