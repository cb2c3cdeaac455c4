use vui_7z::z7::{check_same_directory, Cmd, Enqueue, ExecuteStatus, Operation, Pushment, Z7};

#[test]
fn test_path_parent() {
    let z = Z7::new("/home/chen/code/vui-7z/src", "");
    assert_eq!(z.extract_to_path(), "/home/chen/code/vui-7z");
    let z = Z7::new("code/vui-7z/src", "");
    assert_eq!(z.extract_to_path(), "code/vui-7z");
}

#[test]
fn test_path_display() {
    let path = std::path::PathBuf::from("");
    assert_ne!(format!("{:?}", path), "");
    assert_eq!(path.to_str().unwrap(), "");
    let path = std::path::PathBuf::from("/home/chen/code/vui-7z/src");
    assert_ne!(format!("{:?}", path), "/home/chen/code/vui-7z/src");
    assert_eq!(path.to_str().unwrap(), "/home/chen/code/vui-7z/src");
}

#[test]
fn test_check_same_prefix() {
    let files = ["test/03-e_03.png", "test/01-e_01.png"];
    let files = files.iter().map(|s| s.to_string()).collect::<Vec<_>>();
    let prefix = check_same_directory(&files);
    assert_eq!(prefix, Some("test/".to_string()));

    let files = ["03-e_03.png", "01-e_01.png"];
    let files = files.iter().map(|s| s.to_string()).collect::<Vec<_>>();
    let prefix = check_same_directory(&files);
    assert_eq!(prefix, None);

    let files = ["test", "test/01-e_01.png"];
    let files = files.iter().map(|s| s.to_string()).collect::<Vec<_>>();
    let prefix = check_same_directory(&files);
    assert_eq!(prefix, Some("test/".to_string()));

    let files = ["test2/01-e_01.png", "test/01-e_01.png"];
    let files = files.iter().map(|s| s.to_string()).collect::<Vec<_>>();
    let prefix = check_same_directory(&files);
    assert_eq!(prefix, None);

    let files = ["test", "test2"];
    let files = files.iter().map(|s| s.to_string()).collect::<Vec<_>>();
    let prefix = check_same_directory(&files);
    assert_eq!(prefix, None);
}

fn strings(v: &[&str]) -> Vec<String> {
    v.iter().map(|s| s.to_string()).collect()
}

#[test]
fn common_prefix_examples() {
    assert_eq!(check_same_directory(&strings(&["test/a.png", "test/b.png"])), Some("test/".to_string()));
    assert_eq!(check_same_directory(&strings(&["a.png", "b.png"])), None);
    assert_eq!(check_same_directory(&strings(&["test", "test/a.png"])), Some("test/".to_string()));
    assert_eq!(check_same_directory(&strings(&["test2/a", "test/a"])), None);
    assert_eq!(check_same_directory(&strings(&[])), None);
    assert_eq!(check_same_directory(&strings(&["a/b"])), Some("a/b/".to_string()));
    assert_eq!(check_same_directory(&strings(&["/x", "/y"])), Some("/".to_string()));
    assert_eq!(check_same_directory(&strings(&["a/b/x", "a/b/y"])), Some("a/b/".to_string()));
    assert_eq!(check_same_directory(&strings(&["a/b/x", "a/b/y", "a/c"])), Some("a/".to_string()));
    assert_eq!(check_same_directory(&strings(&["a/bc/x", "a/bd/y"])), Some("a/".to_string()));
}

fn args(z: &mut Z7, cmd: Cmd) -> Vec<String> {
    z.begin_cmd(cmd)
}

#[test]
fn list_and_extract_arguments() {
    let mut z = Z7::new("/data/a.7z", "/h");
    assert_eq!(args(&mut z, Cmd::List), strings(&["l", "/data/a.7z"]));
    assert_eq!(z.status(), ExecuteStatus::Pending);
    assert_eq!(args(&mut z, Cmd::Extract), strings(&["x", "/data/a.7z", "-y", "-o/data"]));
    let r = z.operation(Operation::Password("pw".to_string()));
    assert_eq!(r.stdin, None);
    assert_eq!(args(&mut z, Cmd::List), strings(&["l", "/data/a.7z", "-ppw"]));
}

#[test]
fn retry_after_failed_list_drops_password() {
    let mut z = Z7::new("/data/a.7z", "/h");
    let _ = z.begin_cmd(Cmd::List);
    z.stdin_installed();
    let r = z.operation(Operation::Password("pw".to_string()));
    assert_eq!(r.stdin, Some("pw".to_string()));
    let f = z.finish_cmd(Cmd::List, false, 2);
    assert!(f.history.is_none() && f.line.is_none());
    assert_eq!(z.status(), ExecuteStatus::ListFailed(2));
    assert_eq!(z.password(), None);
    let _ = z.operation(Operation::Password("pw".to_string()));
    let r = z.operation(Operation::Retry);
    assert_eq!(r.enqueue, Some(Enqueue::Try(Cmd::List)));
    assert_eq!(z.password(), None);
    assert_eq!(z.begin_cmd(Cmd::List), strings(&["l", "/data/a.7z"]));
}

#[test]
fn stdin_is_written_once() {
    let mut z = Z7::new("/data/a.7z", "/h");
    let _ = z.begin_cmd(Cmd::List);
    z.stdin_installed();
    assert_eq!(z.operation(Operation::Password("a".to_string())).stdin, Some("a".to_string()));
    assert_eq!(z.operation(Operation::Password("b".to_string())).stdin, None);
    assert_eq!(z.password(), Some("b".to_string()));
}

#[test]
fn execute_queues_extract() {
    let mut z = Z7::new("/data/a.7z", "/h");
    let r = z.operation(Operation::Execute);
    assert_eq!(r.enqueue, Some(Enqueue::Required(Cmd::Extract)));
}

#[test]
fn extract_to_sets_path() {
    let mut z = Z7::new("/data/a.7z", "/h");
    let r = z.operation(Operation::ExtractTo("/out".to_string()));
    assert!(r.enqueue.is_none());
    assert_eq!(z.extract_to_path(), "/out");
    assert_eq!(z.begin_cmd(Cmd::Extract), strings(&["x", "/data/a.7z", "-y", "-o/out"]));
}

#[test]
fn select_password_when_idle_restarts_listing() {
    let mut z = Z7::new("/data/a.7z", "/h");
    let r = z.operation(Operation::SelectPassword("old".to_string()));
    assert_eq!(r.enqueue, Some(Enqueue::Waiting(Cmd::List)));
    assert_eq!(z.password(), None);
    let _ = z.begin_cmd(Cmd::List);
    let path = z.output_line("Enter password (will not be echoed):");
    assert_eq!(path, Some("/h".to_string()));
    let p = z.prompt_shown(None);
    match p.push {
        Pushment::Full(_, cursor) => assert_eq!(cursor, None),
        _ => panic!("expected a full update"),
    }
    match p.submit {
        Some(Operation::Password(s)) => assert_eq!(s, "old"),
        _ => panic!("expected the chosen password"),
    }
}

#[test]
fn select_password_when_pending_submits() {
    let mut z = Z7::new("/data/a.7z", "/h");
    let _ = z.begin_cmd(Cmd::List);
    z.stdin_installed();
    let r = z.operation(Operation::SelectPassword("pw".to_string()));
    assert!(r.enqueue.is_none());
    assert_eq!(r.stdin, Some("pw".to_string()));
}

#[test]
fn prompt_puts_cursor_on_password_line() {
    let mut z = Z7::new("/data/a.7z", "/h");
    let _ = z.begin_cmd(Cmd::List);
    assert_eq!(z.output_line("Listing archive: /data/a.7z"), None);
    assert!(z.output_line("Enter password (will not be echoed):").is_some());
    let p = z.prompt_shown(Some("one\ntwo\n".to_string()));
    assert!(p.submit.is_none());
    match p.push {
        Pushment::Full(lines, cursor) => {
            assert_eq!(lines[4], "Extract file: /data/a.7z");
            assert_eq!(lines[5], "Extract to: /data");
            assert_eq!(lines[6], "Enter password: ");
            assert_eq!(lines[7], "select password use [Ctrl+x]: one | two");
            assert_eq!(cursor, Some((7, 1)));
        }
        _ => panic!("expected a full update"),
    }
}

#[test]
fn listing_without_common_directory_suffixes_path() {
    let mut z = Z7::new("/data/a.7z", "/h");
    let _ = z.begin_cmd(Cmd::List);
    for l in [
        "----- --- --- --- ----",
        "xxxxx xxx xxx xxx a.png",
        "xxxxx xxx xxx xxx b.png",
        "----- --- --- --- ----",
        "summary",
    ] {
        let _ = z.output_line(l);
    }
    let f = z.finish_cmd(Cmd::List, true, 0);
    assert_eq!(z.status(), ExecuteStatus::Idle);
    assert_eq!(z.extract_to_path(), "/data/a");
    match f.line {
        Some(Pushment::Line(i, text)) => {
            assert_eq!(text, "Extract to: /data/a");
            assert_eq!(z.document().output()[i as usize], "Extract to: /data/a");
        }
        _ => panic!("expected a line patch"),
    }
}

#[test]
fn listing_with_common_directory_keeps_path() {
    let mut z = Z7::new("/data/a.7z", "/h");
    let _ = z.begin_cmd(Cmd::List);
    for l in ["----- --- --- --- ----", "xxxxx xxx xxx xxx d/a.png", "xxxxx xxx xxx xxx d/b.png", "----- --- --- --- ----", "s"] {
        let _ = z.output_line(l);
    }
    let f = z.finish_cmd(Cmd::List, true, 0);
    assert!(f.line.is_none());
    assert_eq!(z.extract_to_path(), "/data");
}

#[test]
fn failed_extract_is_recorded() {
    let mut z = Z7::new("/data/a.7z", "/h");
    let _ = z.begin_cmd(Cmd::Extract);
    let _ = z.finish_cmd(Cmd::Extract, false, 7);
    assert_eq!(z.status(), ExecuteStatus::ExtractFailed(7));
}

#[test]
fn output_end_renders_document() {
    let mut z = Z7::new("/data/a.7z", "/h");
    let _ = z.begin_cmd(Cmd::List);
    match z.output_end() {
        Pushment::Full(lines, cursor) => {
            assert!(cursor.is_none());
            assert_eq!(lines, z.document().output());
        }
        _ => panic!("expected a full update"),
    }
}

#[test]
fn extract_to_shows_at_once() {
    let mut z = Z7::new("/data/a.7z", "/h");
    let _ = z.begin_cmd(Cmd::List);
    assert!(z.document().output().iter().any(|l| l == "Extract to: /data"));
    let _ = z.operation(Operation::ExtractTo("/out/x".to_string()));
    let out = z.document().output();
    assert!(out.iter().any(|l| l == "Extract to: /out/x"));
    assert!(!out.iter().any(|l| l == "Extract to: /data"));
}

#[test]
fn new_session_renders_nothing() {
    let z = Z7::new("/data/a.7z", "/h");
    assert!(z.document().output().is_empty());
}

#[test]
fn password_with_attr_is_shown() {
    let mut z = Z7::new("/data/a.7z", "/h");
    let _ = z.begin_cmd(Cmd::List);
    let _ = z.output_line("Enter password (will not be echoed):");
    let _ = z.operation(Operation::Password("myAttrpw".to_string()));
    assert!(z.document().output().iter().any(|l| l == "Enter password: myAttrpw"));
}
