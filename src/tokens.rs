//! Splits a chat message into command-line tokens.
use vstd::prelude::*;
use crate::text::{substring, trim, trim_end, trim_start, trim_str, views};

verus! {

/// Line feeds, spaces and ideographic (full-width) spaces part tokens.
pub open spec fn is_separator(c: char) -> bool {
    c == ' ' || c == '\n' || c == '\u{3000}'
}

/// The pieces of `s` between separators; one more than there are separators.
pub open spec fn fragments(s: Seq<char>) -> Seq<Seq<char>>
    decreases s.len(),
{
    if s.len() == 0 {
        seq![Seq::empty()]
    } else {
        let r = fragments(s.drop_last());
        if is_separator(s.last()) {
            r.push(Seq::empty())
        } else {
            r.update(r.len() - 1, r.last().push(s.last()))
        }
    }
}

/// The fragments, trimmed, that are not empty once trimmed.
pub open spec fn keep_tokens(fs: Seq<Seq<char>>) -> Seq<Seq<char>>
    decreases fs.len(),
{
    if fs.len() == 0 {
        fs
    } else if trim(fs.last()).len() > 0 {
        keep_tokens(fs.drop_last()).push(trim(fs.last()))
    } else {
        keep_tokens(fs.drop_last())
    }
}

/// The tokens of a message.
pub open spec fn tokens(s: Seq<char>) -> Seq<Seq<char>> {
    keep_tokens(fragments(s))
}

pub proof fn lemma_fragments_nonempty(s: Seq<char>)
    ensures
        fragments(s).len() >= 1,
    decreases s.len(),
{
    if s.len() > 0 {
        lemma_fragments_nonempty(s.drop_last());
    }
}

/// The tokens of `message`, in order: split at line feeds and at ordinary or
/// full-width spaces, each trimmed, the empty ones dropped.
pub fn tokenize(message: &str) -> (r: Vec<String>)
    ensures
        views(r@) == tokens(message@),
{
    let s = message;
    let n = s.unicode_len();
    let mut out: Vec<String> = Vec::new();
    let mut start: usize = 0;
    let mut i: usize = 0;
    proof {
        assert(s@.take(0) =~= Seq::<char>::empty());
        assert(s@.subrange(0, 0) =~= Seq::<char>::empty());
        assert(fragments(s@.take(0)).drop_last() =~= Seq::<Seq<char>>::empty());
        assert(views(out@) =~= Seq::<Seq<char>>::empty());
    }
    while i < n
        invariant
            n == s@.len(),
            start <= i <= n,
            fragments(s@.take(i as int)).len() >= 1,
            views(out@) == keep_tokens(fragments(s@.take(i as int)).drop_last()),
            fragments(s@.take(i as int)).last() == s@.subrange(start as int, i as int),
        decreases n - i,
    {
        let ghost p = fragments(s@.take(i as int));
        let ghost old_out = out@;
        assert(s@.take(i + 1).drop_last() =~= s@.take(i as int));
        let c = s.get_char(i);
        if c == ' ' || c == '\n' || c == '\u{3000}' {
            assert(fragments(s@.take(i + 1)) == p.push(Seq::empty()));
            let ghost q = p.drop_last().push(p.last());
            assert(p.push(Seq::empty()).drop_last() =~= q);
            assert(q.drop_last() =~= p.drop_last());
            let piece = substring(s, start, i);
            let t = trim_str(piece.as_str());
            if t.unicode_len() > 0 {
                let w = String::from_str(t);
                out.push(w);
                assert(views(out@) =~= views(old_out).push(w@));
            }
            start = i + 1;
            assert(s@.subrange(start as int, i + 1) =~= Seq::<char>::empty());
        } else {
            assert(fragments(s@.take(i + 1)) == p.update(p.len() - 1, p.last().push(c)));
            assert(p.update(p.len() - 1, p.last().push(c)).drop_last() =~= p.drop_last());
            assert(s@.subrange(start as int, i + 1) =~= s@.subrange(start as int, i as int).push(c));
        }
        i = i + 1;
    }
    assert(s@.take(n as int) =~= s@);
    let ghost p = fragments(s@);
    assert(p =~= p.drop_last().push(p.last()));
    let ghost old_out = out@;
    let piece = substring(s, start, n);
    let t = trim_str(piece.as_str());
    if t.unicode_len() > 0 {
        let w = String::from_str(t);
        out.push(w);
        assert(views(out@) =~= views(old_out).push(w@));
    }
    out
}

/// The tokens of `message` when the first of them is `name`; `None` when the
/// message is not addressed to that command.
pub fn address(message: &str, name: &str) -> (r: Option<Vec<String>>)
    ensures
        r is None <==> (tokens(message@).len() == 0 || tokens(message@)[0] != name@),
        r is Some ==> views(r->0@) == tokens(message@),
{
    let toks = tokenize(message);
    if toks.len() == 0 {
        return None;
    }
    assert(views(toks@)[0] == toks@[0]@);
    if toks[0] == String::from_str(name) {
        Some(toks)
    } else {
        None
    }
}

pub open spec fn is_space(c: char) -> bool {
    c == ' ' || c == '\u{3000}'
}

proof fn lemma_same_fragments(a: Seq<char>, b: Seq<char>)
    requires
        a.len() == b.len(),
        forall|i: int| 0 <= i < a.len() ==> a[i] == b[i] || (is_space(a[i]) && is_space(b[i])),
    ensures
        fragments(a) == fragments(b),
    decreases a.len(),
{
    if a.len() > 0 {
        lemma_same_fragments(a.drop_last(), b.drop_last());
        assert(a.last() == a[a.len() - 1]);
    }
}

/// Full-width spaces and ordinary spaces are interchangeable: two messages
/// that differ only in which of the two stands at some places have the same
/// tokens.
pub proof fn lemma_full_width_space(a: Seq<char>, b: Seq<char>)
    requires
        a.len() == b.len(),
        forall|i: int| 0 <= i < a.len() ==> a[i] == b[i] || (is_space(a[i]) && is_space(b[i])),
    ensures
        tokens(a) == tokens(b),
{
    lemma_same_fragments(a, b);
}

proof fn lemma_extra_fragment(a: Seq<char>, b: Seq<char>, c1: char, c2: char)
    requires
        is_separator(c1),
        is_separator(c2),
    ensures
        fragments(a + seq![c1] + b).len() >= fragments(a).len() + 1,
        fragments(a + seq![c1, c2] + b) == fragments(a + seq![c1] + b).take(
            fragments(a).len() as int,
        ) + seq![Seq::<char>::empty()] + fragments(a + seq![c1] + b).skip(
            fragments(a).len() as int,
        ),
    decreases b.len(),
{
    let k = fragments(a).len() as int;
    let x = a + seq![c1, c2] + b;
    let y = a + seq![c1] + b;
    lemma_fragments_nonempty(a);
    if b.len() == 0 {
        assert(x.drop_last() =~= a.push(c1));
        assert(a.push(c1).drop_last() =~= a);
        assert(y =~= a.push(c1));
        assert(fragments(x) =~= fragments(y).take(k) + seq![Seq::<char>::empty()] + fragments(
            y,
        ).skip(k));
    } else {
        let b1 = b.drop_last();
        lemma_extra_fragment(a, b1, c1, c2);
        let x1 = a + seq![c1, c2] + b1;
        let y1 = a + seq![c1] + b1;
        assert(x.drop_last() =~= x1);
        assert(y.drop_last() =~= y1);
        assert(x.last() == b.last());
        assert(y.last() == b.last());
        let fy1 = fragments(y1);
        let fx1 = fragments(x1);
        assert(fx1.len() == fy1.len() + 1);
        assert(fx1.last() == fy1.last());
        assert(fragments(x) =~= fragments(y).take(k) + seq![Seq::<char>::empty()] + fragments(
            y,
        ).skip(k));
    }
}

proof fn lemma_keep_tokens_append(u: Seq<Seq<char>>, v: Seq<Seq<char>>)
    ensures
        keep_tokens(u + v) == keep_tokens(u) + keep_tokens(v),
    decreases v.len(),
{
    if v.len() == 0 {
        assert(u + v =~= u);
        assert(keep_tokens(u) + keep_tokens(v) =~= keep_tokens(u));
    } else {
        lemma_keep_tokens_append(u, v.drop_last());
        assert((u + v).drop_last() =~= u + v.drop_last());
        assert((u + v).last() == v.last());
        let t = trim(v.last());
        assert((keep_tokens(u) + keep_tokens(v.drop_last())).push(t) =~= keep_tokens(u) + keep_tokens(
            v.drop_last(),
        ).push(t));
    }
}

/// Runs of separators count as one: doubling a space or a line feed leaves
/// the tokens as they were.
pub proof fn lemma_repeated_separator(a: Seq<char>, b: Seq<char>, c1: char, c2: char)
    requires
        is_separator(c1),
        is_separator(c2),
    ensures
        tokens(a + seq![c1, c2] + b) == tokens(a + seq![c1] + b),
{
    let k = fragments(a).len() as int;
    let fy = fragments(a + seq![c1] + b);
    lemma_extra_fragment(a, b, c1, c2);
    let e = seq![Seq::<char>::empty()];
    lemma_keep_tokens_append(fy.take(k) + e, fy.skip(k));
    lemma_keep_tokens_append(fy.take(k), e);
    lemma_keep_tokens_append(fy.take(k), fy.skip(k));
    assert(e.drop_last() =~= Seq::<Seq<char>>::empty());
    assert(e.last() == Seq::<char>::empty());
    assert(trim_start(Seq::<char>::empty()) == Seq::<char>::empty());
    assert(trim_end(Seq::<char>::empty()) == Seq::<char>::empty());
    assert(trim(e.last()).len() == 0);
    assert(keep_tokens(e.drop_last()) == Seq::<Seq<char>>::empty());
    assert(keep_tokens(e) =~= Seq::<Seq<char>>::empty());
    assert(fy.take(k) + fy.skip(k) =~= fy);
    assert(keep_tokens(fy.take(k)) + keep_tokens(e) =~= keep_tokens(fy.take(k)));
}

} // verus!
