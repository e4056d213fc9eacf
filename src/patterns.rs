//! The three text patterns of a usage diagnostic, matched with `regex`:
//! terminal colour codes, section headers, and option spellings.
use vstd::prelude::*;

verus! {

/// Index of the first `m` in `s` at or after `i`, or -1 when there is none.
pub open spec fn find_m(s: Seq<char>, i: int) -> int
    decreases s.len() - i,
{
    if i < 0 || i >= s.len() {
        -1
    } else if s[i] == 'm' {
        i
    } else {
        find_m(s, i + 1)
    }
}

/// `s` with every colour code (escape, `[`, one or more characters other
/// than `m`, then `m`) replaced by one backtick, leftmost codes first.
pub open spec fn ansi_to_ticks(s: Seq<char>) -> Seq<char>
    decreases s.len(),
{
    if s.len() == 0 {
        s
    } else {
        let e = find_m(s, 2);
        if s.len() >= 2 && s[0] == '\u{1b}' && s[1] == '[' && 3 <= e < s.len() {
            seq!['`'] + ansi_to_ticks(s.skip(e + 1))
        } else {
            seq![s[0]] + ansi_to_ticks(s.drop_first())
        }
    }
}

pub open spec fn is_capital(c: char) -> bool {
    'A' <= c && c <= 'Z'
}

/// The number of capital letters that open `s`.
pub open spec fn capital_run(s: Seq<char>) -> nat
    decreases s.len(),
{
    if s.len() > 0 && is_capital(s[0]) {
        1 + capital_run(s.drop_first())
    } else {
        0
    }
}

/// The title of a section header: the capital letters that open `s`, when a
/// colon follows them at once.
pub open spec fn header_title(s: Seq<char>) -> Option<Seq<char>> {
    let k = capital_run(s);
    if 1 <= k < s.len() && s[k as int] == ':' {
        Some(s.take(k as int))
    } else {
        None
    }
}

/// The characters `\n##### `.
pub open spec fn heading_mark() -> Seq<char> {
    seq!['\n', '#', '#', '#', '#', '#', ' ']
}

/// A header line as a markdown heading: the title after the heading mark,
/// then what followed the colon.
pub open spec fn heading_text(s: Seq<char>) -> Seq<char> {
    let k = capital_run(s);
    heading_mark() + s.take(k as int) + s.skip(k as int + 1)
}

pub open spec fn is_option_char(c: char) -> bool {
    ('a' <= c && c <= 'z') || ('A' <= c && c <= 'Z') || c == '-'
}

/// The number of option characters that open `s`.
pub open spec fn option_run(s: Seq<char>) -> nat
    decreases s.len(),
{
    if s.len() > 0 && is_option_char(s[0]) {
        1 + option_run(s.drop_first())
    } else {
        0
    }
}

/// `s` with each option spelling (a hyphen, then as many letters and hyphens
/// as follow, at least one) put between backticks, leftmost first.
pub open spec fn quote_options(s: Seq<char>) -> Seq<char>
    decreases s.len(),
{
    if s.len() == 0 {
        s
    } else {
        let k: int = 1 + option_run(s.drop_first()) as int;
        if s[0] == '-' && 2 <= k <= s.len() {
            seq!['`'] + s.take(k) + seq!['`'] + quote_options(s.skip(k))
        } else {
            seq![s[0]] + quote_options(s.drop_first())
        }
    }
}

/// Relies on `regex::Regex::replace_all` with the pattern `\x1B\[[^m]+m` and
/// the replacement `` ` ``: leftmost-first, non-overlapping matches.
#[verifier::external_body]
pub(crate) fn replace_colour_codes(line: &str) -> (r: String)
    ensures
        r@ == ansi_to_ticks(line@),
{
    regex::Regex::new(r"\x1B\[[^m]+m").unwrap().replace_all(line, "`").into_owned()
}

/// Relies on `regex::Regex::captures` with the pattern `^(?P<title>[A-Z]+):`,
/// handing out the `title` group.
#[verifier::external_body]
pub(crate) fn capture_title(line: &str) -> (r: Option<String>)
    ensures
        r is Some <==> header_title(line@) is Some,
        r is Some ==> header_title(line@) == Some(r->0@),
{
    let re = regex::Regex::new(r"^(?P<title>[A-Z]+):").unwrap();
    re.captures(line).map(|cap| cap["title"].to_string())
}

/// Relies on `regex::Regex::replace_all` with the pattern
/// `^(?P<title>[A-Z]+):` and the replacement `\n##### $title`.
#[verifier::external_body]
pub(crate) fn replace_header(line: &str) -> (r: String)
    ensures
        header_title(line@) is Some ==> r@ == heading_text(line@),
        header_title(line@) is None ==> r@ == line@,
{
    let re = regex::Regex::new(r"^(?P<title>[A-Z]+):").unwrap();
    re.replace_all(line, "\n##### $title").into_owned()
}

/// Relies on `regex::Regex::replace_all` with the pattern
/// `(?P<option>--?[a-zA-Z-]+)` and the replacement `` `$option` ``.
#[verifier::external_body]
pub(crate) fn replace_options(line: &str) -> (r: String)
    ensures
        r@ == quote_options(line@),
{
    let re = regex::Regex::new(r"(?P<option>--?[a-zA-Z-]+)").unwrap();
    re.replace_all(line, "`$option`").into_owned()
}

} // verus!
