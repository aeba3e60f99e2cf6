use herdr_hunks::engine::git_child_env;
use herdr_hunks::engine::gitver::{check_output, min_git, parse, GitCheckError, GitVersion};
use herdr_hunks::tui::format::{truncate, width};

#[test]
fn parses_common_version_strings() {
    assert_eq!(parse("git version 2.43.0\n"), Some(GitVersion { major: 2, minor: 43 }));
    assert_eq!(parse("git version 2.39.5 (Apple Git-154)"), Some(GitVersion { major: 2, minor: 39 }));
    assert_eq!(parse("git version 2.50.1.windows.1"), Some(GitVersion { major: 2, minor: 50 }));
    assert_eq!(parse("not git"), None);
}

#[test]
fn floor_is_2_31() {
    assert!(GitVersion { major: 2, minor: 31 } >= min_git());
    assert!(GitVersion { major: 2, minor: 30 } < min_git());
    assert!(GitVersion { major: 3, minor: 0 } >= min_git());
}

#[test]
fn the_policy_names_the_three_variables() {
    let keys: Vec<&str> = git_child_env().iter().map(|(k, _)| *k).collect();
    assert_eq!(keys, ["GIT_OPTIONAL_LOCKS", "GIT_LITERAL_PATHSPECS", "GIT_NO_LAZY_FETCH"]);
}

#[test]
fn truncate_measures_display_cells_and_ends_in_ellipsis() {
    assert_eq!(truncate("hello", 10), "hello");
    assert_eq!(truncate("hello world", 8), "hello w…");
    assert_eq!(truncate("猫猫猫", 4), "猫…");
    assert_eq!(width("猫"), 2);
    assert_eq!(width("a"), 1);
}

#[test]
fn every_glyph_in_the_vocabulary_is_one_cell() {
    for g in ["◐", "!", "○", "✕", "✓", "●", "▸", "▾", "›", "…", "█", "▓", "▒", "░", "─", "↵", "·"] {
        assert_eq!(width(g), 1, "glyph {g} must occupy exactly one cell");
    }
}

#[test]
fn version_check_names_the_floor_and_the_unparseable_output() {
    assert_eq!(check_output("git version 2.31.0"), Ok(GitVersion { major: 2, minor: 31 }));
    assert!(matches!(check_output("git version 2.30.9"), Err(GitCheckError::TooOld(_))));
    assert!(matches!(check_output("no"), Err(GitCheckError::Missing(_))));
}

#[test]
fn padding_measures_the_kept_text_as_a_whole() {
    let smiles = "\u{263a}\u{fe0f}\u{263a}\u{fe0f}\u{263a}\u{fe0f}";
    assert_eq!(herdr_hunks::tui::format::width(smiles), 6);
    let padded = herdr_hunks::tui::format::pad(smiles, 3);
    assert_eq!(herdr_hunks::tui::format::width(&padded), 3, "{padded:?}");
    assert_eq!(padded, "\u{263a}\u{fe0f}…");
    assert_eq!(herdr_hunks::tui::format::pad("猫猫猫", 4), "猫… ");
    assert_eq!(herdr_hunks::tui::format::pad("ab", 5), "ab   ");
    assert_eq!(herdr_hunks::tui::format::pad("abcdef", 1), " ");
    assert_eq!(herdr_hunks::tui::format::char_width('\u{17d8}'), Some(3));
}
