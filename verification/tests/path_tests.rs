use paperlint::output::path::display_path;
use paperlint::output::path::path_less;
use paperlint::config::Level;
use paperlint::latex::span::Span;
use paperlint::lint::diagnostic::{Diagnostic, SpanOrder};
use paperlint::order::stable_sort;
use paperlint::rule_id::RuleId;

#[test]
fn relative_paths_use_forward_slashes() {
    assert_eq!(display_path("/paper/chapters/main.tex", "/paper"), "chapters/main.tex");
}

#[test]
fn absolute_windows_fallback_has_one_root_separator() {
    assert_eq!(display_path(r"C:\outside\file.tex", r"D:\paper"), "C:/outside/file.tex");
}

#[test]
fn absolute_unc_fallback_normalizes_separators() {
    assert_eq!(display_path(r"\\server\share\outside\file.tex", r"C:\paper"), "//server/share/outside/file.tex");
}

#[test]
fn absolute_verbatim_fallback_normalizes_separators() {
    assert_eq!(
        display_path(r"\\?\UNC\server\share\outside\file.tex", r"C:\paper"),
        "//?/UNC/server/share/outside/file.tex"
    );
}

#[test]
fn paths_outside_the_root_stay_absolute() {
    assert_eq!(display_path("/other/main.tex", "/paper"), "/other/main.tex");
    assert_eq!(display_path("/paperback/main.tex", "/paper"), "/paperback/main.tex");
}

#[test]
fn current_directory_components_are_dropped() {
    assert_eq!(display_path("./chapters/./intro.tex", "/paper"), "chapters/intro.tex");
    assert_eq!(display_path("/paper/a//b.tex", "/paper"), "a/b.tex");
    assert_eq!(display_path("../x.tex", "/paper"), "../x.tex");
}
