use vui_7z::output_format::{parse_dash_line_to_range, Document, FileListLB, TITLE};

#[test]
fn test_parse_dash_line_to_range() {
    let ra = parse_dash_line_to_range("--- --- ---- ---- -----");
    assert_eq!(ra, [0..3, 4..7, 8..12, 13..17, 18..23]);
    let ra = parse_dash_line_to_range("--- --- ---- ----  -----");
    assert_eq!(ra, [0..3, 4..7, 8..12, 13..17, 19..24]);
}

#[test]
fn dash_ranges_last_runs_to_end_of_line() {
    let ra = parse_dash_line_to_range("--- --- ---- ---- -----   ");
    assert_eq!(ra, [0..3, 4..7, 8..12, 13..17, 18..26]);
    let ra = parse_dash_line_to_range("--- ---");
    assert_eq!(ra, [0..3, 4..7, 0..0, 0..0, 0..0]);
    let ra = parse_dash_line_to_range("a b c d e f");
    assert_eq!(ra, [0..1, 2..3, 4..5, 6..7, 8..11]);
}

const RAW: &str = r##"
------------------- ----- ------------ ------------  ------------------------
2023-12-22 16:17:58 D....            0            0  test
2023-12-12 09:18:24 ....A       344963     13216256  test/01-e_01.png
2023-12-12 09:18:28 ....A       821434               test/02-e_02.png
2023-12-12 09:18:26 ....A       608418               test/03-e_03.png
2023-12-12 09:18:28 ....A       757826               test/04-e_04.png
2023-12-12 09:18:28 ....A       790792               test/05-e_05.png
2023-12-12 09:18:30 ....A       712878               test/06-e_06.png
2023-12-12 09:18:30 ....A       740854               test/07-e_07.png
2023-12-12 09:18:30 ....A       711147               test/08-e_08.png
2023-12-12 09:18:32 ....A       724006               test/09-e_09.png
2023-12-12 09:18:32 ....A       637246               test/10-e_10.png
2023-12-12 09:18:32 ....A       739784               test/11-e_11.png
2023-12-12 09:18:34 ....A       733386               test/12-e_12.png
2023-12-12 09:18:34 ....A       683368               test/13-e_13.png
2023-12-12 09:18:34 ....A       740540               test/14-e_14.png
2023-12-12 09:18:38 ....A       781016               test/15-e_15.png
2023-12-12 09:18:38 ....A       681962               test/16-e_16.png
2023-12-12 09:18:38 ....A       830510               test/17-e_17.png
2023-12-12 09:18:40 ....A       220106               test/18-e_18.png
2023-12-12 09:18:40 ....A       436832               test/19-e_19.png
2023-12-12 09:18:40 ....A       311853               test/20-e_20.png
2023-12-12 09:18:42 ....A       328685               test/21-MT43.jpg
2023-12-12 09:18:42 ....A          473               test/meta.json
------------------- ----- ------------ ------------  ------------------------
2023-12-22 16:17:58           13338079     13216256  22 files, 1 folders
"##;

#[test]
fn test_file_list_lb() {
    let mut flb = FileListLB::new();
    RAW.lines().for_each(|l| {
        let _ = flb.input(l);
    });
    flb.output().iter().for_each(|l| {
        println!("{}", l);
    });
    flb.files().iter().for_each(|f| {
        println!("{}", f);
    });
}

#[test]
fn file_list_rows_and_summary() {
    let mut flb = FileListLB::new();
    for l in RAW.lines() {
        let _ = flb.input(l);
    }
    let files = flb.files();
    assert_eq!(files.len(), 23);
    assert_eq!(files[0], "test");
    assert_eq!(files[1], "test/01-e_01.png");
    assert_eq!(files[22], "test/meta.json");
    let out = flb.output();
    assert_eq!(out.len(), 1 + 23 + 2);
    assert_eq!(out[1], "2023-12-22 16:17:58 D....            0            0  test");
    assert_eq!(out[25], "2023-12-22 16:17:58           13338079     13216256  22 files, 1 folders");
    assert!(flb.input("Set extract_path:  /tmp/out/ "));
    let out = flb.output();
    assert_eq!(out[2], "2023-12-12 09:18:24 ....A       344963     13216256  /tmp/out/test/01-e_01.png");
}

#[test]
fn short_row_is_cut_where_it_ends() {
    let mut flb = FileListLB::new();
    assert!(flb.input("----- --- --- --- ----"));
    assert!(flb.input("ab"));
    assert_eq!(flb.files(), vec!["".to_string()]);
    assert_eq!(flb.output(), vec!["----- --- --- --- ----".to_string(), "ab".to_string()]);
}

#[test]
fn header_line_is_taken() {
    let mut flb = FileListLB::new();
    assert!(flb.input("   Date      Time    Attr         Size   Compressed  Name"));
    assert!(!flb.input("something else"));
    assert_eq!(flb.output().len(), 1);
}

#[test]
fn list_layout_renders_in_order() {
    let mut doc = Document::new();
    doc.layout_list();
    doc.input("Listing archive: /a/b.7z");
    doc.input("Type = 7z");
    doc.input("Method = LZMA2");
    doc.input("ERROR: Wrong password");
    doc.input("unclaimed line");
    let out = doc.output();
    assert_eq!(
        out,
        vec![
            TITLE.to_string(),
            "".to_string(),
            "Listing archive: /a/b.7z".to_string(),
            "".to_string(),
            "Type = 7z\tMethod = LZMA2".to_string(),
            "".to_string(),
            "ERROR: Wrong password".to_string(),
            "".to_string(),
        ]
    );
}

#[test]
fn unclaimed_line_never_rendered() {
    let mut doc = Document::new();
    doc.layout_list();
    let before = doc.output();
    doc.input("no classifier takes this");
    assert_eq!(doc.output(), before);
    assert!(!doc.output().iter().any(|l| l == "no classifier takes this"));
}

#[test]
fn same_line_twice_gives_no_repeats() {
    let mut doc = Document::new();
    doc.layout_extract();
    doc.input("Extracting archive: x.7z");
    doc.input("Extracting archive: x.7z");
    doc.input("Everything is Ok");
    doc.input("Everything is Ok");
    let out = doc.output();
    for w in out.windows(2) {
        assert_ne!(w[0], w[1]);
    }
    assert_eq!(out.iter().filter(|l| l.as_str() == "Extracting archive: x.7z").count(), 1);
}

#[test]
fn capture_takes_first_line_only() {
    let mut doc = Document::new();
    doc.layout_list();
    doc.input("Listing archive: one.7z");
    doc.input("Listing archive: two.7z");
    let out = doc.output();
    assert_eq!(out[2], "Listing archive: one.7z");
    assert!(!out.iter().any(|l| l.contains("two.7z")));
}

#[test]
fn password_prompt_and_input() {
    let mut doc = Document::new();
    doc.layout_list();
    doc.input("Enter password (will not be echoed):");
    assert_eq!(doc.output()[2], "Enter password: ");
    doc.input("Input password: secret");
    assert_eq!(doc.output()[2], "Enter password: secret");
}

#[test]
fn password_history_is_loaded_and_saved_sorted() {
    let mut doc = Document::new();
    doc.layout_list();
    doc.input("Enter password");
    doc.load_password_history("  beta \n\nalpha\r\n");
    let out = doc.output();
    assert_eq!(out[3], "select password use [Ctrl+x]: beta | alpha");
    let saved = doc.save_password("gamma");
    assert_eq!(saved, Some("alpha\nbeta\ngamma".to_string()));
    let saved = doc.save_password("beta");
    assert_eq!(saved, Some("alpha\nbeta\ngamma".to_string()));
}

#[test]
fn save_password_without_prompt_is_not_taken() {
    let mut doc = Document::new();
    doc.layout_list();
    assert_eq!(doc.save_password("x"), None);
}

#[test]
fn file_table_survives_layout_change() {
    let mut doc = Document::new();
    doc.layout_list();
    for l in RAW.lines() {
        doc.input(l);
    }
    doc.layout_extract();
    assert_eq!(doc.files().len(), 23);
}

#[test]
fn error_line_taken_once() {
    let mut doc = Document::new();
    doc.layout_list();
    doc.input("ERROR: first");
    doc.input("ERROR: second");
    let out = doc.output();
    assert!(out.iter().any(|l| l == "ERROR: first"));
    assert!(!out.iter().any(|l| l.contains("second")));
}

#[test]
fn set_extract_path_wins_over_header() {
    let mut flb = FileListLB::new();
    assert!(flb.input("----- --- --- --- ----"));
    assert!(flb.input("xxxxx xxx xxx xxx a.png"));
    assert!(flb.input("----- --- --- --- ----"));
    assert!(flb.input("summary"));
    assert!(flb.input("Set extract_path: Attr/"));
    let out = flb.output();
    assert_eq!(out[1], "xxxxx xxx xxx xxx Attr/a.png");
    assert!(!flb.input("Extract to: /x Attr"));
    assert!(!flb.input("Input password: Attr"));
}

#[test]
fn synthetic_lines_not_captured() {
    let mut doc = Document::new();
    doc.layout_list();
    doc.input("Extract to: /home/file,s");
    doc.input("Extract file: /a/file,b.7z");
    let out = doc.output();
    assert!(out.iter().any(|l| l == "Extract to: /home/file,s"));
    assert!(out.iter().any(|l| l == "Extract file: /a/file,b.7z"));
    assert_eq!(out.iter().filter(|l| l.contains("file,")).count(), 2);
}
