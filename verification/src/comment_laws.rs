//! Properties of how the lexer reads a comment that spans lines.
use vstd::prelude::*;
use crate::lexer::{
    comment_parts, comment_tokens, lex_line, lex_lines, nonempty, text_token, text_tokens, then, tldr_line, Lexed,
    starts_with_ic,
};
use crate::text::{
    ascii_fold, eq_ic, find_ic, find_ic_from, is_ws, join, lemma_find_ic_from, lemma_trim_end_take,
    lemma_trim_start_skip, matches_ic_at, trim, trim_start,
};

verus! {

/// A plain piece of text: not empty, with no whitespace at either end, and
/// none of `#`, `<`, `>` or `&` in it.
pub open spec fn plain_text(t: Seq<char>) -> bool {
    &&& t.len() > 0
    &&& !is_ws(t[0])
    &&& !is_ws(t.last())
    &&& forall|i: int| 0 <= i < t.len() ==> t[i] != '#' && t[i] != '<' && t[i] != '>' && t[i] != '&'
}

pub proof fn lemma_char_not_hash(c: char)
    requires
        c != '#',
    ensures
        ascii_fold(c) != ascii_fold('#'),
{
    assert(('#' as u32) == 35);
}

proof fn lemma_no_tldr(s: Seq<char>)
    requires
        forall|i: int| 0 <= i < s.len() ==> s[i] != '#',
    ensures
        find_ic(s, "#TLDR"@) is None,
{
    reveal_strlit("#TLDR");
    let p = "#TLDR"@;
    lemma_find_ic_from(s, p, 0);
    if let Some(k) = find_ic_from(s, p, 0) {
        let w = s.subrange(k, k + p.len());
        assert(eq_ic(w, p));
        assert(ascii_fold(w[0]) == ascii_fold(p[0]));
        assert(w[0] == s[k]);
        lemma_char_not_hash(s[k]);
    }
}

proof fn lemma_find_first(s: Seq<char>, p: Seq<char>, i: int, j: int)
    requires
        0 <= i <= j,
        matches_ic_at(s, p, j),
        forall|m: int| i <= m < j ==> !#[trigger] matches_ic_at(s, p, m),
    ensures
        find_ic_from(s, p, i) == Some(j),
    decreases j - i,
{
    if i < j {
        assert(!matches_ic_at(s, p, i));
        lemma_find_first(s, p, i + 1, j);
    }
}

pub proof fn lemma_trimmed(l: Seq<char>)
    requires
        l.len() > 0,
        !is_ws(l[0]),
        !is_ws(l.last()),
    ensures
        trim(l) == l,
{
    lemma_trim_start_skip(l, 0);
    assert(l.skip(0) =~= l);
    lemma_trim_end_take(l, l.len() as int);
    assert(l.take(l.len() as int) =~= l);
}

/// A comment that opens on one line with text `a`, goes on over a line `c`
/// and closes on a third line after text `b` gives the tokens `#OBTW`, one
/// text token holding `a`, `c` and `b` joined by single spaces, and `#TLDR`.
pub proof fn law_comment_over_lines(
    tags: Seq<Seq<char>>,
    a: Seq<char>,
    c: Seq<char>,
    b: Seq<char>,
)
    requires
        plain_text(a),
        plain_text(c),
        plain_text(b),
    ensures
        lex_lines(tags, seq!["#OBTW "@ + a, c, b + " #TLDR"@], 0) == Lexed::Done(
            seq!["#OBTW"@, text_token(a + " "@ + c + " "@ + b), "#TLDR"@],
        ),
{
    reveal_strlit("#OBTW ");
    reveal_strlit("#OBTW");
    reveal_strlit(" #TLDR");
    reveal_strlit("#TLDR");
    reveal_strlit(" ");
    let lines = seq!["#OBTW "@ + a, c, b + " #TLDR"@];
    let l0 = "#OBTW "@ + a;
    let l2 = b + " #TLDR"@;
    assert(l0[0] == '#' && l0.last() == a.last());
    lemma_trimmed(l0);
    assert(l2[0] == b[0] && l2.last() == 'R');
    lemma_trimmed(l2);
    lemma_trimmed(c);
    assert(lines[0] == l0 && lines[1] == c && lines[2] == l2);
    // the opening line
    assert(!l0.contains('<') && !l0.contains('>') && !l0.contains('&')) by {
        assert forall|i: int| 0 <= i < l0.len() implies l0[i] != '<' && l0[i] != '>' && l0[i] != '&' by {
            if i >= 6 {
                assert(l0[i] == a[i - 6]);
            }
        }
    }
    assert(l0.take(5) =~= "#OBTW"@);
    assert(starts_with_ic(l0, "#OBTW"@));
    assert(l0.skip(5) =~= " "@ + a);
    lemma_trim_start_skip(" "@ + a, 1);
    assert((" "@ + a).skip(1) =~= a);
    lemma_trimmed(a);
    let rest = trim(l0.skip(5));
    assert(rest == a);
    lemma_no_tldr(a);
    // the middle line holds no `#TLDR`
    lemma_no_tldr(c);
    // the closing line
    let p = "#TLDR"@;
    let pos: int = b.len() + 1int;
    assert(l2.subrange(pos, pos + 5) =~= p);
    assert(matches_ic_at(l2, p, pos));
    assert forall|m: int| 0 <= m < pos implies !#[trigger] matches_ic_at(l2, p, m) by {
        if matches_ic_at(l2, p, m) {
            let w = l2.subrange(m, m + 5);
            assert(ascii_fold(w[0]) == ascii_fold(p[0]));
            assert(w[0] == l2[m]);
            if m < b.len() {
                assert(l2[m] == b[m]);
                lemma_char_not_hash(b[m]);
            } else {
                assert(l2[m] == ' ');
                lemma_char_not_hash(' ');
            }
        }
    }
    lemma_find_first(l2, p, 0, pos);
    assert(find_ic(trim(lines[1]), p) is None);
    assert(tldr_line(lines, 2) == Some(2int));
    assert(tldr_line(lines, 1) == Some(2int));
    assert(comment_parts(lines, 2, 2) =~= Seq::<Seq<char>>::empty());
    assert(comment_parts(lines, 1, 2) =~= seq![c]);
    assert(l2.take(pos) =~= b + " "@);
    lemma_trim_end_take(b + " "@, b.len() as int);
    assert((b + " "@).take(b.len() as int) =~= b);
    assert(!is_ws((b + " "@)[0]));
    lemma_trim_start_skip(b + " "@, 0);
    assert((b + " "@).skip(0) =~= b + " "@);
    assert(trim(l2.take(pos)) == b);
    assert(l2.skip(pos + 5) =~= Seq::<char>::empty());
    let parts = seq![a] + seq![c] + seq![b];
    assert(parts.drop_last() =~= seq![a, c]);
    assert(seq![a, c].drop_last() =~= seq![a]);
    let body = a + " "@ + c + " "@ + b;
    assert(join(seq![a], " "@) == a);
    assert(join(seq![a, c], " "@) == join(seq![a], " "@) + " "@ + c);
    assert(join(parts, " "@) == join(seq![a, c], " "@) + " "@ + b);
    assert(join(parts, " "@) =~= body);
    assert(body[0] == a[0] && body.last() == b.last());
    lemma_trimmed(body);
    assert(trim(Seq::<char>::empty()) =~= Seq::<char>::empty());
    assert(nonempty(a) == seq![a]);
    assert(nonempty(b) == seq![b]);
    assert(nonempty(rest) + comment_parts(lines, 1, 2) + nonempty(trim(l2.take(pos))) == parts);
    assert(find_ic(l2, p) == Some(pos));
    assert(lex_lines(tags, lines, 3) == Lexed::Done(Seq::empty()));
    assert(lex_line(tags, trim(l2.skip(pos + 5))) == Lexed::Done(Seq::empty()));
    assert(then(lex_line(tags, trim(l2.skip(pos + 5))), lex_lines(tags, lines, 3)) == Lexed::Done(
        Seq::<Seq<char>>::empty() + Seq::<Seq<char>>::empty(),
    ));
    assert(Seq::<Seq<char>>::empty() + Seq::<Seq<char>>::empty() =~= Seq::<Seq<char>>::empty());
    assert(text_tokens(body) == seq![text_token(body)]);
    assert(comment_tokens(trim(join(parts, " "@))) == seq!["#OBTW"@] + seq![text_token(body)] + seq!["#TLDR"@]);
    assert(seq!["#OBTW"@] + seq![text_token(body)] + seq!["#TLDR"@] + Seq::<Seq<char>>::empty()
        =~= seq!["#OBTW"@, text_token(body), "#TLDR"@]);
}

} // verus!
