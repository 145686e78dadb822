use rust_calc::resolve_database_path;
use std::path::PathBuf;

#[test]
fn explicit_data_path_takes_precedence() {
    assert_eq!(
        PathBuf::from(resolve_database_path(
            Some("/tmp/custom".into()),
            Some("/tmp/xdg".into()),
            None
        )),
        PathBuf::from("/tmp/custom")
    );
}

#[test]
fn platform_data_directory_is_used_by_default() {
    assert_eq!(
        PathBuf::from(resolve_database_path(None, Some("/tmp/xdg".into()), None)),
        PathBuf::from("/tmp/xdg/rust-calc/history.ferrite")
    );
    assert_eq!(
        PathBuf::from(resolve_database_path(None, None, Some("/home/user".into()))),
        PathBuf::from("/home/user/.local/share/rust-calc/history.ferrite")
    );
}

#[test]
fn invalid_xdg_data_directory_falls_back_to_home() {
    for invalid in [String::new(), String::from("relative/data")] {
        assert_eq!(
            PathBuf::from(resolve_database_path(
                None,
                Some(invalid),
                Some("/home/user".into())
            )),
            PathBuf::from("/home/user/.local/share/rust-calc/history.ferrite")
        );
    }
}

#[test]
fn a_trailing_separator_is_not_doubled() {
    assert_eq!(
        resolve_database_path(None, Some("/tmp/xdg/".into()), None),
        "/tmp/xdg/rust-calc/history.ferrite"
    );
    assert_eq!(
        resolve_database_path(None, None, Some("/root/".into())),
        "/root/.local/share/rust-calc/history.ferrite"
    );
}

#[test]
fn without_any_directory_the_relative_default_is_used() {
    assert_eq!(resolve_database_path(None, None, None), "data/history.ferrite");
    assert_eq!(
        resolve_database_path(None, Some("relative".into()), None),
        "data/history.ferrite"
    );
}

#[test]
fn an_explicit_path_is_kept_as_it_is() {
    assert_eq!(
        resolve_database_path(Some("relative/db".into()), None, Some("/home/user".into())),
        "relative/db"
    );
}
