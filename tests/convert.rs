use structbotopt::markdown::{convert_diagnostic, entry_line};
use structbotopt::render_outcome;

#[test]
fn flag_without_description_merges_next_line() {
    assert_eq!(
        convert_diagnostic("FLAGS:\n    --verbose\n            Print more\n"),
        "\n##### FLAGS\n\n* `--verbose`: Print more\n"
    );
}

#[test]
fn subcommand_line_becomes_bullet() {
    assert_eq!(
        convert_diagnostic("SUBCOMMANDS:\n    build    Compile the project\n"),
        "\n##### SUBCOMMANDS\n\n* `build`: Compile the project\n"
    );
    assert_eq!(entry_line("    build    Compile the project"), "* `build`: Compile the project\n");
}

#[test]
fn args_line_becomes_bullet() {
    assert_eq!(
        convert_diagnostic("ARGS:\n    <INPUT>    The input file\n"),
        "\n##### ARGS\n\n* `<INPUT>`: The input file\n"
    );
    assert_eq!(entry_line(""), "* ``: \n");
    assert_eq!(entry_line("  solo "), "* `solo`: \n");
}

#[test]
fn blank_flag_lines_give_nothing() {
    assert_eq!(
        convert_diagnostic("FLAGS:\n\n    \n    -h, --help    Show help\n"),
        "\n##### FLAGS\n\n*     `-h`, `--help`    Show help\n"
    );
}

#[test]
fn lines_before_first_header_are_dropped() {
    assert_eq!(
        convert_diagnostic("prog 1.0\nsome text here\nUSAGE:\n    cmd\n"),
        "\n##### USAGE\n\n```\ncmd\n```\n"
    );
    assert_eq!(convert_diagnostic("no headers at all\nnone\n"), "");
    assert_eq!(convert_diagnostic(""), "");
}

#[test]
fn single_usage_line_is_fenced_once() {
    let out = convert_diagnostic("USAGE:\n    cmd [OPTIONS]\n");
    assert_eq!(out, "\n##### USAGE\n\n```\ncmd [OPTIONS]\n```\n");
    assert_eq!(out.matches("```").count(), 2);
}

#[test]
fn later_usage_lines_are_plain() {
    assert_eq!(
        convert_diagnostic("USAGE:\n    a\n    b\n"),
        "\n##### USAGE\n\n```\na\n```\nb\n"
    );
}

#[test]
fn synthetic_diagnostic_round_trip() {
    let out = convert_diagnostic("USAGE:\n    cmd [OPTIONS]\n\nFLAGS:\n    -h, --help    Show help\n");
    assert!(out.contains("##### USAGE"));
    assert!(out.contains("```\ncmd [OPTIONS]\n```"));
    assert!(out.contains("##### FLAGS"));
    let bullet = out.lines().find(|l| l.starts_with("* ")).unwrap();
    assert!(bullet.contains("`-h`"));
    assert!(bullet.contains("`--help`"));
    assert!(bullet.contains("Show help"));
    assert_eq!(
        out,
        "\n##### USAGE\n\n```\ncmd [OPTIONS]\n```\n\n\n##### FLAGS\n\n*     `-h`, `--help`    Show help\n"
    );
}

#[test]
fn colour_codes_become_backticks() {
    assert_eq!(
        convert_diagnostic("FLAGS:\n    \u{1b}[32m--foo\u{1b}[0m\n        Foo it\n"),
        "\n##### FLAGS\n\n* ``--foo``: Foo it\n"
    );
    assert_eq!(
        convert_diagnostic("NOTE:\n\u{1b}[1mbold\u{1b}[m x\n"),
        "\n##### NOTE\n\n`bold\u{1b}[m x\n"
    );
}

#[test]
fn other_section_passes_through() {
    assert_eq!(
        convert_diagnostic("OPTIONS:\n    -c <x>    Config\n"),
        "\n##### OPTIONS\n\n    -c <x>    Config\n"
    );
}

#[test]
fn header_keeps_text_after_colon() {
    assert_eq!(convert_diagnostic("ERROR: bad thing\n"), "\n##### ERROR bad thing\n\n");
    assert_eq!(convert_diagnostic("Error: x\nUSAGE :\n"), "");
}

#[test]
fn last_flag_line_without_description() {
    assert_eq!(convert_diagnostic("FLAGS:\n    --verbose"), "\n##### FLAGS\n\n* `--verbose`: \n");
}

#[test]
fn options_inside_words_are_quoted() {
    assert_eq!(
        convert_diagnostic("FLAGS:\n    a-b -- x\n"),
        "\n##### FLAGS\n\n*     a`-b` `--` x\n"
    );
}

#[test]
fn outcome_rendering() {
    assert_eq!(render_outcome::<u8>(Ok(3)), Ok(3));
    assert_eq!(
        render_outcome::<u8>(Err("SUBCOMMANDS:\n    help    Prints help\n".to_string())),
        Err("\n##### SUBCOMMANDS\n\n* `help`: Prints help\n".to_string())
    );
}
