//! Rewrites a command parser's usage diagnostic as a markdown document.
use vstd::prelude::*;
use crate::patterns::{
    ansi_to_ticks, capture_title, header_title, heading_text, quote_options, replace_colour_codes,
    replace_header, replace_options,
};
use crate::text::{
    is_white_space, join_from, join_words, split_lines, split_words, text_lines, trim, trim_end,
    trim_start, trim_str, views, words,
};

verus! {

/// The part of a diagnostic that the converter is in; `Preamble` is the part
/// before the first header.
pub enum Section {
    Usage,
    Flags,
    SubCommands,
    Args,
    Other(String),
    Preamble,
}

/// The model of a `Section`: a section title as characters.
pub enum SectionModel {
    Usage,
    Flags,
    SubCommands,
    Args,
    Other(Seq<char>),
    Preamble,
}

impl View for Section {
    type V = SectionModel;

    open spec fn view(&self) -> SectionModel {
        match self {
            Section::Usage => SectionModel::Usage,
            Section::Flags => SectionModel::Flags,
            Section::SubCommands => SectionModel::SubCommands,
            Section::Args => SectionModel::Args,
            Section::Other(t) => SectionModel::Other(t@),
            Section::Preamble => SectionModel::Preamble,
        }
    }
}

/// The section that a header with this title opens.
pub open spec fn section_for(title: Seq<char>) -> SectionModel {
    if title == seq!['U', 'S', 'A', 'G', 'E'] {
        SectionModel::Usage
    } else if title == seq!['F', 'L', 'A', 'G', 'S'] {
        SectionModel::Flags
    } else if title == seq!['S', 'U', 'B', 'C', 'O', 'M', 'M', 'A', 'N', 'D', 'S'] {
        SectionModel::SubCommands
    } else if title == seq!['A', 'R', 'G', 'S'] {
        SectionModel::Args
    } else {
        SectionModel::Other(title)
    }
}

pub open spec fn newline() -> Seq<char> {
    seq!['\n']
}

/// `t` in a fenced code block of its own.
pub open spec fn fenced(t: Seq<char>) -> Seq<char> {
    seq!['`', '`', '`', '\n'] + t + seq!['\n', '`', '`', '`', '\n']
}

/// A bullet that holds `t`.
pub open spec fn bullet(t: Seq<char>) -> Seq<char> {
    seq!['*', ' '] + t + newline()
}

/// A subcommand or argument line as a bullet: the first word quoted, then
/// the other words joined by single spaces.
pub open spec fn entry_item(l: Seq<char>) -> Seq<char> {
    let ws = words(trim(l));
    let name = if ws.len() > 0 { trim(ws[0]) } else { Seq::empty() };
    let desc = if ws.len() > 0 { join_words(ws.skip(1)) } else { Seq::empty() };
    bullet(seq!['`'] + name + seq!['`', ':', ' '] + desc)
}

pub open spec fn ends_with_tick(s: Seq<char>) -> bool {
    s.len() > 0 && s.last() == '`'
}

/// The markdown for the lines of `ls` from index `i` on, in section `sec`;
/// `fst` tells that the next usage line is the first of its section.
pub open spec fn convert_from(ls: Seq<Seq<char>>, i: int, sec: SectionModel, fst: bool) -> Seq<
    char,
>
    decreases ls.len() - i,
{
    if i < 0 || i >= ls.len() {
        Seq::empty()
    } else {
        let l = ansi_to_ticks(ls[i]);
        match header_title(l) {
            Some(t) => {
                let next = section_for(t);
                heading_text(l) + seq!['\n', '\n'] + convert_from(
                    ls,
                    i + 1,
                    next,
                    if next is Usage {
                        true
                    } else {
                        fst
                    },
                )
            },
            None => match sec {
                SectionModel::Usage => if fst {
                    fenced(trim(l)) + convert_from(ls, i + 1, sec, false)
                } else {
                    trim(l) + newline() + convert_from(ls, i + 1, sec, fst)
                },
                SectionModel::SubCommands | SectionModel::Args => entry_item(l) + convert_from(
                    ls,
                    i + 1,
                    sec,
                    fst,
                ),
                SectionModel::Flags => if trim(l).len() == 0 {
                    convert_from(ls, i + 1, sec, fst)
                } else if ends_with_tick(trim(quote_options(l))) {
                    if i + 1 < ls.len() {
                        bullet(trim(quote_options(l)) + seq![':', ' '] + trim(ls[i + 1]))
                            + convert_from(ls, i + 2, sec, fst)
                    } else {
                        bullet(trim(quote_options(l)) + seq![':', ' '])
                    }
                } else {
                    bullet(quote_options(l)) + convert_from(ls, i + 1, sec, fst)
                },
                SectionModel::Preamble => convert_from(ls, i + 1, sec, fst),
                SectionModel::Other(_) => l + newline() + convert_from(ls, i + 1, sec, fst),
            },
        }
    }
}

/// The markdown document for a diagnostic text.
pub open spec fn convert_text(s: Seq<char>) -> Seq<char> {
    convert_from(text_lines(s), 0, SectionModel::Preamble, false)
}

fn section_for_title(title: String) -> (r: Section)
    ensures
        r@ == section_for(title@),
{
    proof {
        reveal_strlit("USAGE");
        reveal_strlit("FLAGS");
        reveal_strlit("SUBCOMMANDS");
        reveal_strlit("ARGS");
    }
    if title == String::from_str("USAGE") {
        assert("USAGE"@ =~= seq!['U', 'S', 'A', 'G', 'E']);
        Section::Usage
    } else if title == String::from_str("FLAGS") {
        assert("USAGE"@ =~= seq!['U', 'S', 'A', 'G', 'E']);
        assert("FLAGS"@ =~= seq!['F', 'L', 'A', 'G', 'S']);
        Section::Flags
    } else if title == String::from_str("SUBCOMMANDS") {
        assert("USAGE"@ =~= seq!['U', 'S', 'A', 'G', 'E']);
        assert("FLAGS"@ =~= seq!['F', 'L', 'A', 'G', 'S']);
        assert("SUBCOMMANDS"@ =~= seq!['S', 'U', 'B', 'C', 'O', 'M', 'M', 'A', 'N', 'D', 'S']);
        Section::SubCommands
    } else if title == String::from_str("ARGS") {
        assert("USAGE"@ =~= seq!['U', 'S', 'A', 'G', 'E']);
        assert("FLAGS"@ =~= seq!['F', 'L', 'A', 'G', 'S']);
        assert("SUBCOMMANDS"@ =~= seq!['S', 'U', 'B', 'C', 'O', 'M', 'M', 'A', 'N', 'D', 'S']);
        assert("ARGS"@ =~= seq!['A', 'R', 'G', 'S']);
        Section::Args
    } else {
        assert("USAGE"@ =~= seq!['U', 'S', 'A', 'G', 'E']);
        assert("FLAGS"@ =~= seq!['F', 'L', 'A', 'G', 'S']);
        assert("SUBCOMMANDS"@ =~= seq!['S', 'U', 'B', 'C', 'O', 'M', 'M', 'A', 'N', 'D', 'S']);
        assert("ARGS"@ =~= seq!['A', 'R', 'G', 'S']);
        Section::Other(title)
    }
}

/// A subcommand or argument line as a markdown bullet.
pub fn entry_line(l: &str) -> (r: String)
    ensures
        r@ == entry_item(l@),
{
    let ws = split_words(trim_str(l));
    let name: &str = if ws.len() > 0 {
        trim_str(ws[0].as_str())
    } else {
        ""
    };
    let desc = if ws.len() > 0 {
        join_from(&ws, 1)
    } else {
        String::new()
    };
    proof {
        reveal_strlit("");
        reveal_strlit("* `");
        reveal_strlit("`: ");
        reveal_strlit("\n");
        if ws@.len() > 0 {
            assert(views(ws@)[0] == ws@[0]@);
        }
    }
    let mut out = String::from_str("* `");
    out.append(name);
    out.append("`: ");
    out.append(desc.as_str());
    out.append("\n");
    assert(out@ =~= entry_item(l@));
    out
}

proof fn lemma_assoc(a: Seq<char>, b: Seq<char>, c: Seq<char>)
    ensures
        a + (b + c) == (a + b) + c,
{
    assert(a + (b + c) =~= (a + b) + c);
}

/// Rewrites a usage diagnostic as markdown: section headers become level-five
/// headings, the first usage line a fenced code block, and subcommands,
/// arguments and flags bullets; lines before the first header are dropped.
pub fn convert_diagnostic(text: &str) -> (r: String)
    ensures
        r@ == convert_text(text@),
{
    let lines = split_lines(text);
    let ghost ls = text_lines(text@);
    let mut out = String::new();
    let mut sec = Section::Preamble;
    let mut fst = false;
    let mut i: usize = 0;
    proof {
        reveal_strlit("");
        reveal_strlit("\n");
        reveal_strlit("\n\n");
        reveal_strlit("```\n");
        reveal_strlit("\n```\n");
        reveal_strlit("* ");
        reveal_strlit(": ");
        assert(out@ + convert_from(ls, 0, SectionModel::Preamble, false) =~= convert_text(text@));
    }
    while i < lines.len()
        invariant
            ls == text_lines(text@),
            lines@.len() == ls.len(),
            forall|j: int| 0 <= j < lines@.len() ==> #[trigger] lines@[j]@ == ls[j],
            i <= lines@.len(),
            out@ + convert_from(ls, i as int, sec@, fst) == convert_text(text@),
            ""@ == Seq::<char>::empty(),
            "\n"@ == newline(),
            "\n\n"@ == seq!['\n', '\n'],
            "```\n"@ == seq!['`', '`', '`', '\n'],
            "\n```\n"@ == seq!['\n', '`', '`', '`', '\n'],
            "* "@ == seq!['*', ' '],
            ": "@ == seq![':', ' '],
        decreases lines@.len() - i,
    {
        let ghost old_out = out@;
        let ghost old_rest = convert_from(ls, i as int, sec@, fst);
        let l = replace_colour_codes(lines[i].as_str());
        let mut next: usize = i + 1;
        match capture_title(l.as_str()) {
            Some(title) => {
                let s = section_for_title(title);
                let h = replace_header(l.as_str());
                out.append(h.as_str());
                out.append("\n\n");
                if let Section::Usage = s {
                    fst = true;
                }
                sec = s;
            },
            None => {
                match &sec {
                    Section::Usage => {
                        if fst {
                            out.append("```\n");
                            out.append(trim_str(l.as_str()));
                            out.append("\n```\n");
                            fst = false;
                        } else {
                            out.append(trim_str(l.as_str()));
                            out.append("\n");
                        }
                    },
                    Section::SubCommands | Section::Args => {
                        let e = entry_line(l.as_str());
                        out.append(e.as_str());
                    },
                    Section::Flags => {
                        let t = trim_str(l.as_str());
                        if t.unicode_len() > 0 {
                            let q = replace_options(l.as_str());
                            let tq = trim_str(q.as_str());
                            let n = tq.unicode_len();
                            if n > 0 && tq.get_char(n - 1) == '`' {
                                out.append("* ");
                                out.append(tq);
                                out.append(": ");
                                if i + 1 < lines.len() {
                                    out.append(trim_str(lines[i + 1].as_str()));
                                    next = i + 2;
                                }
                                out.append("\n");
                            } else {
                                out.append("* ");
                                out.append(q.as_str());
                                out.append("\n");
                            }
                        }
                    },
                    Section::Preamble => {},
                    Section::Other(_) => {
                        out.append(l.as_str());
                        out.append("\n");
                    },
                }
            },
        }
        proof {
            let piece = out@.subrange(old_out.len() as int, out@.len() as int);
            assert(out@ =~= old_out + piece);
            assert(old_rest == piece + convert_from(ls, next as int, sec@, fst));
            lemma_assoc(old_out, piece, convert_from(ls, next as int, sec@, fst));
        }
        i = next;
    }
    assert(out@ =~= convert_text(text@));
    out
}

/// Lines before the first header are dropped: when none of the first `k`
/// lines of a text is a header, its markdown is that of its lines from `k` on.
pub proof fn lemma_preamble_dropped(s: Seq<char>, k: int)
    requires
        0 <= k <= text_lines(s).len(),
        forall|j: int|
            0 <= j < k ==> #[trigger] header_title(ansi_to_ticks(text_lines(s)[j])) is None,
    ensures
        convert_text(s) == convert_from(text_lines(s), k, SectionModel::Preamble, false),
    decreases k,
{
    if k > 0 {
        lemma_preamble_dropped(s, k - 1);
        assert(header_title(ansi_to_ticks(text_lines(s)[k - 1])) is None);
    }
}

proof fn lemma_no_escape(s: Seq<char>)
    requires
        forall|j: int| 0 <= j < s.len() ==> s[j] != '\u{1b}',
    ensures
        ansi_to_ticks(s) == s,
    decreases s.len(),
{
    if s.len() > 0 {
        lemma_no_escape(s.drop_first());
        assert(s =~= seq![s[0]] + s.drop_first());
    }
}

proof fn lemma_blank_trims_empty(s: Seq<char>)
    requires
        forall|j: int| 0 <= j < s.len() ==> is_white_space(#[trigger] s[j]),
    ensures
        trim_start(s).len() == 0,
    decreases s.len(),
{
    if s.len() > 0 {
        assert(is_white_space(s[0]));
        lemma_blank_trims_empty(s.drop_first());
    }
}

/// Blank lines give nothing in a flags section: the markdown from such a
/// line on is that from the next line on.
pub proof fn lemma_blank_flag_line(ls: Seq<Seq<char>>, i: int, fst: bool)
    requires
        0 <= i < ls.len(),
        forall|j: int| 0 <= j < ls[i].len() ==> is_white_space(#[trigger] ls[i][j]),
    ensures
        convert_from(ls, i, SectionModel::Flags, fst) == convert_from(
            ls,
            i + 1,
            SectionModel::Flags,
            fst,
        ),
{
    let l = ls[i];
    assert forall|j: int| 0 <= j < l.len() implies l[j] != '\u{1b}' by {
        assert(is_white_space(l[j]));
    }
    lemma_no_escape(l);
    lemma_blank_trims_empty(l);
    assert(trim_end(trim_start(l)).len() == 0);
    if l.len() > 0 {
        assert(is_white_space(l[0]));
    }
    assert(header_title(l) is None);
}

/// A usage section with one body line gives one fenced code block: the
/// heading, then that line trimmed inside a fence, then the next section.
pub proof fn lemma_single_usage_line(ls: Seq<Seq<char>>, i: int, sec: SectionModel, fst: bool)
    requires
        0 <= i,
        i + 1 < ls.len(),
        header_title(ansi_to_ticks(ls[i])) == Some(seq!['U', 'S', 'A', 'G', 'E']),
        header_title(ansi_to_ticks(ls[i + 1])) is None,
        i + 2 == ls.len() || header_title(ansi_to_ticks(ls[i + 2])) is Some,
    ensures
        convert_from(ls, i, sec, fst) == heading_text(ansi_to_ticks(ls[i])) + seq!['\n', '\n']
            + fenced(trim(ansi_to_ticks(ls[i + 1]))) + convert_from(
            ls,
            i + 2,
            SectionModel::Usage,
            false,
        ),
{
    let h = heading_text(ansi_to_ticks(ls[i])) + seq!['\n', '\n'];
    let b = fenced(trim(ansi_to_ticks(ls[i + 1])));
    let c = convert_from(ls, i + 2, SectionModel::Usage, false);
    assert(section_for(seq!['U', 'S', 'A', 'G', 'E']) is Usage);
    assert(convert_from(ls, i + 1, SectionModel::Usage, true) == b + c);
    assert(convert_from(ls, i, sec, fst) == h + (b + c));
    assert(h + (b + c) =~= h + b + c);
}

} // verus!
