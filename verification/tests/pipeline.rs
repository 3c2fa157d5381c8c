use uniq_append::config::{args, Cli};
use uniq_append::writer::{app, Outcome};

fn settings(quiet_mode: bool, sort: bool, trim: bool, rewrite: bool, dry_run: bool) -> Cli {
    Cli { quiet_mode, sort, trim, rewrite, dry_run, filepath: String::from("lines.txt") }
}

fn plain() -> Cli {
    settings(false, false, false, false, false)
}

fn run(cli: &Cli, file: Option<&str>, input: &str) -> (String, Option<String>) {
    let Outcome { output, file } = app(cli, file, input);
    (output, file)
}

#[test]
fn test_basic_write_twice_the_same() {
    let input = b"I'm George1\n";
    let testfile = testfile::empty();
    let testfile_path: &std::path::Path = testfile.as_ref();
    let args = Cli {
        quiet_mode: false,
        sort: false,
        trim: false,
        rewrite: false,
        dry_run: false,
        filepath: testfile_path.to_string_lossy().into(),
    };
    let text = String::from_utf8(input.to_vec()).expect("Not UTF-8");

    let first = app(&args.clone(), Some(""), &text);
    assert_eq!(input, first.output.as_bytes());

    let second = app(&args.clone(), first.file.as_deref(), &text);
    assert_eq!("".as_bytes(), second.output.as_bytes());
    assert_eq!(second.file, first.file);
}

#[test]
fn args_keeps_every_option() {
    let cli = args(true, false, true, false, true, String::from("out.txt"));
    assert!(cli.quiet_mode);
    assert!(!cli.sort);
    assert!(cli.trim);
    assert!(!cli.rewrite);
    assert!(cli.dry_run);
    assert_eq!(cli.filepath, "out.txt");
    let cli = args(false, true, false, true, false, String::new());
    assert!(!cli.quiet_mode);
    assert!(cli.sort);
    assert!(!cli.trim);
    assert!(cli.rewrite);
    assert!(!cli.dry_run);
    assert_eq!(cli.filepath, "");
}

#[test]
fn second_run_is_silent_and_keeps_the_file() {
    let (output, file) = run(&plain(), Some(""), "A\n");
    assert_eq!(output, "A\n");
    assert_eq!(file.as_deref(), Some("A\n"));
    let (output, file) = run(&plain(), file.as_deref(), "A\n");
    assert_eq!(output, "");
    assert_eq!(file.as_deref(), Some("A\n"));
}

#[test]
fn second_run_is_silent_with_every_write_option() {
    for &(sort, rewrite) in &[(false, false), (true, false), (false, true), (true, true)] {
        let cli = settings(false, sort, true, rewrite, false);
        let (output, file) = run(&cli, Some("b\na\n"), " c \na\nb\n\nd\nc\n");
        assert_eq!(output, "c\nd\n");
        let (again, kept) = run(&cli, file.as_deref(), " c \na\nb\n\nd\nc\n");
        assert_eq!(again, "");
        assert_eq!(kept, file);
    }
}

#[test]
fn missing_destination_is_created_by_the_first_line() {
    let (output, file) = run(&plain(), None, "A\nB\nA\n");
    assert_eq!(output, "A\nB\n");
    assert_eq!(file.as_deref(), Some("A\nB\n"));
}

#[test]
fn missing_destination_stays_missing_without_lines() {
    let (output, file) = run(&plain(), None, "");
    assert_eq!(output, "");
    assert_eq!(file, None);
    let (output, file) = run(&plain(), None, "\n\n");
    assert_eq!(output, "");
    assert_eq!(file, None);
}

#[test]
fn blank_lines_are_dropped_with_trim() {
    let cli = settings(false, false, true, false, false);
    let (output, file) = run(&cli, Some("A\n"), "\n  \n");
    assert_eq!(output, "");
    assert_eq!(file.as_deref(), Some("A\n"));
    let (output, file) = run(&cli, None, "\n  \n");
    assert_eq!(output, "");
    assert_eq!(file, None);
}

#[test]
fn blank_lines_are_dropped_without_trim() {
    let (output, file) = run(&plain(), Some("A\n"), "\n  \n\t\n");
    assert_eq!(output, "");
    assert_eq!(file.as_deref(), Some("A\n"));
}

#[test]
fn trimmed_line_is_treated_as_the_bare_line() {
    let cli = settings(false, false, true, false, false);
    let padded = run(&cli, Some("A\n"), " X\n");
    let bare = run(&cli, Some("A\n"), "X\n");
    assert_eq!(padded, bare);
    assert_eq!(padded.0, "X\n");
    assert_eq!(padded.1.as_deref(), Some("A\nX\n"));
    let (output, file) = run(&cli, Some("X\n"), " X \n");
    assert_eq!(output, "");
    assert_eq!(file.as_deref(), Some("X\n"));
}

#[test]
fn trim_applies_to_the_destination_too() {
    let cli = settings(false, false, true, false, false);
    let (output, file) = run(&cli, Some(" X \n"), "X\n");
    assert_eq!(output, "");
    assert_eq!(file.as_deref(), Some(" X \n"));
}

#[test]
fn untrimmed_lines_differ_by_their_spaces() {
    let (output, file) = run(&plain(), Some(""), "X\nX \n");
    assert_eq!(output, "X\nX \n");
    assert_eq!(file.as_deref(), Some("X\nX \n"));
    let (output, file) = run(&plain(), Some("X\n"), "X \n X\nX\n");
    assert_eq!(output, "X \n X\n");
    assert_eq!(file.as_deref(), Some("X\nX \n X\n"));
}

#[test]
fn dry_run_leaves_the_file_alone() {
    for &sort in &[false, true] {
        for &rewrite in &[false, true] {
            for &trim in &[false, true] {
                let cli = settings(false, sort, trim, rewrite, true);
                let (output, file) = run(&cli, Some("b\nb\n\na"), "c\nb\na\nd\n");
                assert_eq!(output, "c\nd\n");
                assert_eq!(file.as_deref(), Some("b\nb\n\na"));
                let (output, file) = run(&cli, None, "c\nc\n");
                assert_eq!(output, "c\n");
                assert_eq!(file, None);
            }
        }
    }
}

#[test]
fn quiet_dry_run_does_nothing() {
    let cli = settings(true, true, true, true, true);
    let (output, file) = run(&cli, Some("A\nA\n"), "B\n");
    assert_eq!(output, "");
    assert_eq!(file.as_deref(), Some("A\nA\n"));
}

#[test]
fn quiet_run_writes_without_echo() {
    let cli = settings(true, false, false, false, false);
    let (output, file) = run(&cli, Some("A\n"), "B\nA\nC\n");
    assert_eq!(output, "");
    assert_eq!(file.as_deref(), Some("A\nB\nC\n"));
}

#[test]
fn sort_orders_naturally_ignoring_case() {
    let cli = settings(false, true, false, false, false);
    let (output, file) = run(&cli, Some("item10\nitem2\nItem1\n"), "");
    assert_eq!(output, "");
    assert_eq!(file.as_deref(), Some("Item1\nitem2\nitem10\n"));
}

#[test]
fn sort_covers_old_and_new_lines() {
    let cli = settings(false, true, false, false, false);
    let (output, file) = run(&cli, Some("item10\nItem20\n"), "item2\nitem10\nitem1\n");
    assert_eq!(output, "item2\nitem1\n");
    assert_eq!(file.as_deref(), Some("item1\nitem2\nitem10\nItem20\n"));
}

#[test]
fn sort_drops_duplicates_of_the_destination() {
    let cli = settings(false, true, false, false, false);
    let (_, file) = run(&cli, Some("b\na\nb\n\nc\n"), "");
    assert_eq!(file.as_deref(), Some("a\nb\nc\n"));
}

#[test]
fn sort_creates_an_empty_destination() {
    let cli = settings(false, true, false, false, false);
    let (output, file) = run(&cli, None, "");
    assert_eq!(output, "");
    assert_eq!(file.as_deref(), Some(""));
}

#[test]
fn rewrite_removes_duplicates() {
    let cli = settings(false, false, false, true, false);
    let (output, file) = run(&cli, Some("A\nA\nB\n"), "");
    assert_eq!(output, "");
    assert_eq!(file.as_deref(), Some("A\nB\n"));
}

#[test]
fn rewrite_removes_blank_lines_and_goes_before_the_input() {
    let cli = settings(false, false, false, true, false);
    let (output, file) = run(&cli, Some("B\n\nA\n  \nB"), "C\nA\n");
    assert_eq!(output, "C\n");
    assert_eq!(file.as_deref(), Some("B\nA\nC\n"));
}

#[test]
fn rewrite_creates_a_missing_destination() {
    let cli = settings(false, false, false, true, false);
    let (_, file) = run(&cli, None, "");
    assert_eq!(file.as_deref(), Some(""));
}

#[test]
fn lines_keep_their_first_seen_order() {
    let (output, file) = run(&plain(), Some("z\ny\n"), "x\nz\nw\nx\ny\nv\n");
    assert_eq!(output, "x\nw\nv\n");
    assert_eq!(file.as_deref(), Some("z\ny\nx\nw\nv\n"));
}

#[test]
fn without_rewrite_the_old_content_stays_as_it_is() {
    let (output, file) = run(&plain(), Some("A\nA\n\nB\n"), "C\n");
    assert_eq!(output, "C\n");
    assert_eq!(file.as_deref(), Some("A\nA\n\nB\nC\n"));
}

#[test]
fn carriage_returns_end_a_line_too() {
    let (output, file) = run(&plain(), Some("A\r\nB\r\n"), "B\r\nC\r\nA\n");
    assert_eq!(output, "C\n");
    assert_eq!(file.as_deref(), Some("A\r\nB\r\nC\n"));
}

#[test]
fn last_line_needs_no_newline() {
    let (output, file) = run(&plain(), Some("A\n"), "B\nC");
    assert_eq!(output, "B\nC\n");
    assert_eq!(file.as_deref(), Some("A\nB\nC\n"));
}

#[test]
fn unterminated_destination_joins_the_first_new_line() {
    let (output, file) = run(&plain(), Some("A"), "B\n");
    assert_eq!(output, "B\n");
    assert_eq!(file.as_deref(), Some("AB\n"));
    let (output, file) = run(&plain(), file.as_deref(), "B\n");
    assert_eq!(output, "B\n");
    assert_eq!(file.as_deref(), Some("AB\nB\n"));
}

#[test]
fn rewrite_terminates_an_unterminated_destination() {
    let cli = settings(false, false, false, true, false);
    let (output, file) = run(&cli, Some("A"), "B\n");
    assert_eq!(output, "B\n");
    assert_eq!(file.as_deref(), Some("A\nB\n"));
    let (output, kept) = run(&cli, file.as_deref(), "B\n");
    assert_eq!(output, "");
    assert_eq!(kept, file);
}
