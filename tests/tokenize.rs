use structbotopt::tokens::{address, tokenize};
use structbotopt::StructBotOpt;

fn strings(v: &[&str]) -> Vec<String> {
    v.iter().map(|s| s.to_string()).collect()
}

#[test]
fn full_width_space_separates_tokens() {
    assert_eq!(tokenize("cmd\u{3000}--flag"), tokenize("cmd --flag"));
    assert_eq!(tokenize("cmd\u{3000}--flag"), strings(&["cmd", "--flag"]));
}

#[test]
fn repeated_spaces_and_blank_lines_are_dropped() {
    let single = tokenize("cmd a b");
    assert_eq!(tokenize("  cmd   a\n\n\n b  "), single);
    assert_eq!(tokenize("cmd\r\na\r\n\r\nb\r\n"), single);
    assert_eq!(single, strings(&["cmd", "a", "b"]));
}

#[test]
fn tab_inside_a_token_is_kept() {
    assert_eq!(tokenize("cmd\t--x"), strings(&["cmd\t--x"]));
    assert_eq!(tokenize("\tcmd --x\t"), strings(&["cmd", "--x"]));
}

#[test]
fn empty_message_has_no_tokens() {
    assert!(tokenize("").is_empty());
    assert!(tokenize(" \n \u{3000} ").is_empty());
    assert_eq!(address("", "cmd"), None);
}

#[test]
fn other_first_token_is_not_addressed() {
    assert_eq!(address("other cmd --flag", "cmd"), None);
    assert_eq!(address("cmdx", "cmd"), None);
    assert_eq!(address("\n cmd  go", "cmd"), Some(strings(&["cmd", "go"])));
}

#[derive(Debug, PartialEq)]
struct Echo {
    rest: Vec<String>,
}

impl StructBotOpt for Echo {
    fn command_name() -> String {
        "echo".to_string()
    }

    fn from_tokens(tokens: Vec<String>) -> Result<Self, String> {
        if tokens.iter().any(|t| t == "--bad") {
            Err("error: bad flag\n\nUSAGE:\n    echo [WORDS]...\n".to_string())
        } else {
            Ok(Echo { rest: tokens[1..].to_vec() })
        }
    }
}

#[test]
fn pipeline_not_addressed() {
    assert_eq!(Echo::parse_bot_args("hello echo"), None);
}

#[test]
fn pipeline_success() {
    assert_eq!(
        Echo::parse_bot_args("echo\u{3000}a  b"),
        Some(Ok(Echo { rest: strings(&["a", "b"]) }))
    );
}

#[test]
fn pipeline_failure_is_markdown() {
    assert_eq!(
        Echo::parse_bot_args("echo --bad"),
        Some(Err("\n##### USAGE\n\n```\necho [WORDS]...\n```\n".to_string()))
    );
}
