use gptrepo::ignore::build_ignore_list;
use gptrepo::output::{default_preamble, generate_output, render_record, FileEntry};

fn entry(rel_path: &str, contents: &[u8]) -> FileEntry {
    FileEntry { rel_path: rel_path.to_string(), contents: contents.to_vec() }
}

#[test]
fn record_holds_separator_path_and_contents() {
    let rec = render_record("a.txt", &b"hello".to_vec());
    assert_eq!(rec, "----\na.txt\nhello\n");
}

#[test]
fn record_keeps_multibyte_utf8() {
    let rec = render_record("greeting.txt", &"héllo wörld".as_bytes().to_vec());
    assert_eq!(rec, "----\ngreeting.txt\nhéllo wörld\n");
}

#[test]
fn invalid_bytes_replaced_not_fatal() {
    let rec = render_record("f.bin", &vec![0xFF, b'h', b'i']);
    assert_eq!(rec, "----\nf.bin\n\u{FFFD}hi\n");
}

#[test]
fn matching_file_left_out_of_output() {
    let contents = String::from("*.log");
    let patterns = build_ignore_list(Some(&contents), "output.txt", false);
    let files = vec![entry("a.txt", b"hello"), entry("b.log", b"secret")];
    let out = generate_output("PRE", &files, &patterns);
    assert_eq!(out, "PRE\n----\na.txt\nhello\n--END--\n");
    assert!(!out.contains("b.log"));
    assert!(!out.contains("secret"));
}

#[test]
fn output_file_never_includes_itself() {
    let patterns = build_ignore_list(None, "output.txt", false);
    let files = vec![entry("output.txt", b"stale artifact"), entry("kept.txt", b"data")];
    let out = generate_output("PRE", &files, &patterns);
    assert_eq!(out, "PRE\n----\nkept.txt\ndata\n--END--\n");
}

#[test]
fn output_framed_by_preamble_and_terminator() {
    let patterns = build_ignore_list(None, "output.txt", false);
    let files = vec![entry("a.txt", b"x"), entry("b.txt", b"y")];
    let out = generate_output("explains the format", &files, &patterns);
    assert!(out.starts_with("explains the format\n"));
    assert!(out.ends_with("--END--\n"));
}

#[test]
fn empty_walk_yields_preamble_and_terminator_alone() {
    let patterns = build_ignore_list(None, "output.txt", false);
    let out = generate_output("PRE", &Vec::new(), &patterns);
    assert_eq!(out, "PRE\n--END--\n");
}

#[test]
fn records_keep_walk_order() {
    let patterns = build_ignore_list(None, "output.txt", false);
    let files = vec![entry("z.txt", b"1"), entry("a.txt", b"2")];
    let out = generate_output("PRE", &files, &patterns);
    assert_eq!(out, "PRE\n----\nz.txt\n1\n----\na.txt\n2\n--END--\n");
}

#[test]
fn contents_ending_with_newline_keep_it() {
    let patterns = build_ignore_list(None, "output.txt", false);
    let files = vec![entry("a.txt", b"line\n")];
    let out = generate_output("PRE", &files, &patterns);
    assert_eq!(out, "PRE\n----\na.txt\nline\n\n--END--\n");
}

#[test]
fn repeated_runs_byte_identical() {
    let contents = String::from("*.tmp\nnotes/*");
    let patterns = build_ignore_list(Some(&contents), "output.txt", false);
    let files = vec![
        entry("a.txt", b"hello"),
        entry("notes/n.txt", b"skip me"),
        entry("bin/raw", &[0x00, 0xFE, 0xFF]),
    ];
    let first = generate_output("PRE", &files, &patterns);
    let second = generate_output("PRE", &files, &patterns);
    assert_eq!(first.as_bytes(), second.as_bytes());
}

#[test]
fn default_preamble_describes_the_format() {
    let preamble = default_preamble();
    assert!(preamble.starts_with("The following text is a Git repository with code."));
    assert!(preamble.contains("--END--"));
    assert!(preamble.ends_with("context."));
}
