use vui_7z::nvim::{BufLineChanges, Nvim};
use vui_7z::options::{default_password_history_file, FilePath};
use vui_7z::z7::Operation;

fn strings(v: &[&str]) -> Vec<String> {
    v.iter().map(|s| s.to_string()).collect()
}

#[test]
fn bare_prompt_asks_retry() {
    let c = BufLineChanges { line_start: 4, line_end: 5, buf_id: 1, content: strings(&["Enter password: "]) };
    assert!(matches!(c.operation(), Some(Operation::Retry)));
    let c = BufLineChanges { line_start: 4, line_end: 5, buf_id: 1, content: strings(&["Enter password: x"]) };
    assert!(c.operation().is_none());
}

#[test]
fn leave_gives_typed_password() {
    match Nvim::operation_on_leave(&strings(&["", "Enter password:   pw  ", "Extract to: /x"])) {
        Some(Operation::Password(p)) => assert_eq!(p, "pw"),
        _ => panic!("expected a password"),
    }
    assert!(Nvim::operation_on_leave(&strings(&["Enter password: ", "Extract to: /x"])).is_none());
}

#[test]
fn leave_gives_typed_path() {
    match Nvim::operation_on_leave(&strings(&["Extract to:  /out/dir "])) {
        Some(Operation::ExtractTo(p)) => assert_eq!(p, "/out/dir"),
        _ => panic!("expected a path"),
    }
    assert!(Nvim::operation_on_leave(&strings(&["nothing"])).is_none());
}

#[test]
fn first_error_line_found() {
    assert_eq!(Nvim::error_line(&strings(&["a", "ERROR: x", "ERROR: y"])), Some(1));
    assert_eq!(Nvim::error_line(&strings(&["a"])), None);
}

#[test]
fn rows_round_cursor() {
    assert_eq!(Nvim::rows_round(1), (0, 2));
    assert_eq!(Nvim::rows_round(0), (0, 1));
    assert_eq!(Nvim::rows_round(7), (6, 8));
}

#[test]
fn paths_are_joined() {
    assert_eq!(FilePath::new("/cwd", "a.7z").file, "/cwd/a.7z");
    assert_eq!(FilePath::new("/cwd", "/abs/a.7z").file, "/abs/a.7z");
    assert_eq!(default_password_history_file("/home/u"), "/home/u/.config/7zvui/password_history.txt");
}
