use dvadva::theme::{fork_bar, moon_frame, session_bar, theme_file, Rgb, Slot, Theme};
use dvadva::theme::{MOON_FRAME_MILLIS, MOON_PHASES};

/// The two strips are meant to read as a hierarchy, not as two equal rows.
#[test]
fn test_the_session_bar_is_the_bigger_and_squarer_of_the_two() {
    assert!(session_bar().height > fork_bar().height);
    assert!(session_bar().corner < fork_bar().corner);
    // Spacing is the one thing they share, so the two rows align.
    assert_eq!(session_bar().spacing, fork_bar().spacing);
}

#[test]
fn test_cycling_visits_every_theme_and_returns() {
    let mut theme = Theme::Light;
    let mut seen = vec![theme];
    for _ in 0..2 {
        theme = theme.next();
        seen.push(theme);
    }
    assert_eq!(seen, vec![Theme::Light, Theme::Dark, Theme::Kimi]);
    assert_eq!(theme.next(), Theme::Light);
}

#[test]
fn test_names_round_trip() {
    for theme in [Theme::Light, Theme::Dark, Theme::Kimi] {
        assert_eq!(Theme::from_name(theme.name()), Some(theme));
    }
}

#[test]
fn test_unknown_name_is_rejected() {
    // A hand-edited or truncated preference file falls back to the default
    // rather than refusing to start.
    assert_eq!(Theme::from_name(""), None);
    assert_eq!(Theme::from_name("solarized"), None);
}

#[test]
fn test_hover_names_this_theme_and_the_next() {
    assert_eq!(Theme::Dark.hover(), "theme: dark — click for Kimi (Ctrl+D)");
}

/// The moon index is a modulo of a growing time; it stays in range across a long
/// session and not only at its start.
#[test]
fn test_moon_phase_index_stays_in_range() {
    for seconds in [0.0, 0.5, 13.0, 86_400.0] {
        let phase = seconds / (MOON_FRAME_MILLIS as f64 / 1000.0);
        assert!((phase as usize) % MOON_PHASES.len() < MOON_PHASES.len());
        assert!(moon_frame((seconds * 1000.0) as u64) < MOON_PHASES.len());
    }
    assert_eq!(moon_frame(129), 0);
    assert_eq!(moon_frame(130), 1);
    assert_eq!(moon_frame(130 * 9), 1);
}

#[test]
fn the_stored_theme_is_loaded_and_anything_else_is_the_default() {
    assert_eq!(Theme::load(Some(" kimi\n")), Theme::Kimi);
    assert_eq!(Theme::load(Some("solarized")), Theme::Dark);
    assert_eq!(Theme::load(None), Theme::Dark);
    assert_eq!(Theme::default(), Theme::Dark);
    assert_eq!(theme_file("/home/k/.kimi"), "/home/k/.kimi/gui-theme");
}

#[test]
fn themes_have_their_colours_and_looks() {
    assert_eq!(Theme::Kimi.colors().accent, Rgb { r: 0x67, g: 0xe8, b: 0xf9 });
    assert_eq!(Theme::Light.slot(), Slot::Light);
    assert_eq!(Theme::Kimi.slot(), Slot::Dark);
    assert_eq!(Theme::Light.glyph(), "☀");
    assert_eq!(Theme::Kimi.label(), "Kimi");
}
