use stylish::{Background, Color, Foreground, Intensity, Style, StyleDiff};

#[test]
fn diff_round_trip_on_all_fields() {
    let base = Style::default().with(Foreground(Color::Red)).with(Intensity::Bold);
    let target = Style::default().with(Foreground(Color::Blue)).with(Background(Color::Green));
    let diff = target.diff_from(base);
    assert_eq!(diff.foreground, Some(Color::Blue));
    assert_eq!(diff.background, Some(Color::Green));
    assert_eq!(diff.intensity, Some(Intensity::Normal));
    assert_eq!(base.with(diff), target);
}

#[test]
fn diff_of_equal_styles_is_empty() {
    let style = Style::default().with(Foreground(Color::Cyan));
    assert_eq!(style.diff_from(style), StyleDiff::default());
    assert_eq!(style.with(style.diff_from(style)), style);
}

#[test]
fn diff_round_trip_over_many_styles() {
    let colors = [Color::Default, Color::Red, Color::BrightBlue];
    let intensities = [Intensity::Normal, Intensity::Bold, Intensity::Faint];
    let mut styles = Vec::new();
    for foreground in colors {
        for background in colors {
            for intensity in intensities {
                styles.push(
                    Style::default()
                        .with(Foreground(foreground))
                        .with(Background(background))
                        .with(intensity),
                );
            }
        }
    }
    for base in &styles {
        for target in &styles {
            assert_eq!(base.with(target.diff_from(*base)), *target);
        }
    }
}

#[test]
fn default_style_is_plain() {
    let style = Style::default();
    assert_eq!(style.foreground, Color::Default);
    assert_eq!(style.background, Color::Default);
    assert_eq!(style.intensity, Intensity::Normal);
    assert_eq!(Color::default(), Color::Default);
    assert_eq!(Intensity::default(), Intensity::Normal);
}

#[test]
fn changes_compose_from_left_to_right() {
    let style = Style::default().with((Foreground(Color::Red), Foreground(Color::Blue)));
    assert_eq!(style.foreground, Color::Blue);
    let style = Style::default().with((
        Foreground(Color::Red),
        Background(Color::Green),
        Intensity::Bold,
    ));
    assert_eq!(style.foreground, Color::Red);
    assert_eq!(style.background, Color::Green);
    assert_eq!(style.intensity, Intensity::Bold);
    let changes = [Intensity::Bold, Intensity::Faint, Intensity::Normal, Intensity::Faint];
    assert_eq!(Style::default().with(&changes[..]).intensity, Intensity::Faint);
    assert_eq!(Style::default().with(&changes[..0]), Style::default());
    let boxed: Box<Foreground> = Box::new(Foreground(Color::Cyan));
    assert_eq!(Style::default().with(boxed).foreground, Color::Cyan);
}

#[test]
fn untouched_fields_pass_through() {
    let base = Style::default().with(Foreground(Color::Red)).with(Intensity::Bold);
    let changed = base.with(Background(Color::Blue));
    assert_eq!(changed.foreground, Color::Red);
    assert_eq!(changed.intensity, Intensity::Bold);
    assert_eq!(changed.background, Color::Blue);
    assert_eq!(base.with(()), base);
    assert_eq!(base.with(None::<Foreground>), base);
    assert_eq!(base.with(Some(Foreground(Color::Green))).foreground, Color::Green);
    assert_eq!(base.with(StyleDiff::default()), base);
}

#[test]
fn whole_style_replaces() {
    let base = Style::default().with(Foreground(Color::Red)).with(Intensity::Bold);
    let other = Style::default().with(Background(Color::Blue));
    assert_eq!(base.with(other), other);
}
