//! Properties of how the lexer reads a single line: text, and annotations
//! in any ASCII case.
use vstd::prelude::*;
use crate::comment_laws::{lemma_char_not_hash, lemma_trimmed, plain_text};
use crate::lexer::{
    lemma_index_of_from, lex_line, lex_lines, prepend, scan_tags, standard_tags, starts_with_ic, text_token,
    text_tokens, then, Lexed, Scan,
};
use crate::text::{ascii_fold, eq_ic, index_of_from, is_ws, lemma_trim_start_skip, trim, trim_start};

verus! {

proof fn lemma_no_hash_index(t: Seq<char>)
    requires
        forall|i: int| 0 <= i < t.len() ==> t[i] != '#',
    ensures
        index_of_from(t, '#', 0) is None,
{
    lemma_index_of_from(t, '#', 0);
}

proof fn lemma_plain_line(tags: Seq<Seq<char>>, t: Seq<char>)
    requires
        plain_text(t),
    ensures
        lex_line(tags, t) == Lexed::Done(seq![text_token(t)]),
{
    lemma_no_hash_index(t);
    lemma_trimmed(t);
    assert(t[0] != '#');
    assert(t.take(t.len() as int) =~= t);
    assert(t.skip(t.len() as int) =~= Seq::<char>::empty());
    assert(trim_start(Seq::<char>::empty()) =~= Seq::<char>::empty());
    assert(lex_line(tags, Seq::<char>::empty()) == Lexed::Done(Seq::empty()));
    assert(text_tokens(t) == seq![text_token(t)]);
    assert(seq![text_token(t)] + Seq::<Seq<char>>::empty() =~= seq![text_token(t)]);
}

/// A line of plain text, with no annotation in it, gives one text token
/// that holds the whole line.
pub proof fn law_text_line(tags: Seq<Seq<char>>, t: Seq<char>)
    requires
        plain_text(t),
    ensures
        lex_lines(tags, seq![t], 0) == Lexed::Done(seq![text_token(t)]),
{
    lemma_plain_line(tags, t);
    lemma_trimmed(t);
    let l = seq![t];
    assert(l[0] == t);
    assert(!t.contains('<') && !t.contains('>') && !t.contains('&'));
    reveal_strlit("#OBTW");
    assert("#OBTW"@.len() == 5 && "#OBTW"@[0] == '#');
    if t.len() >= 5 {
        lemma_char_not_hash(t[0]);
        assert(t.take(5)[0] == t[0]);
        assert(!eq_ic(t.take(5), "#OBTW"@));
    }
    assert(!starts_with_ic(t, "#OBTW"@));
    assert(lex_lines(tags, l, 1) == Lexed::Done(Seq::empty()));
    assert(seq![text_token(t)] + Seq::<Seq<char>>::empty() =~= seq![text_token(t)]);
}

proof fn lemma_fold_hash(c: char)
    requires
        ascii_fold(c) == ascii_fold('#'),
    ensures
        c == '#',
{
    assert(('#' as u32) == 35);
}

/// Each standard annotation before `#HAI` differs from it in its second
/// character, ignoring ASCII case.
proof fn lemma_before_hai()
    ensures
        forall|i: int| 0 <= i < 16 ==> (#[trigger] standard_tags()[i]).len() >= 2
            && ascii_fold(standard_tags()[i][1]) != ascii_fold('H'),
        standard_tags()[16] == "#HAI"@,
        standard_tags().len() == 18,
{
    let tg = standard_tags();
    reveal_strlit("#GIMMEH ITALICS");
    reveal_strlit("#GIMMEH TITLE");
    reveal_strlit("#MAEK PARAGRAF");
    reveal_strlit("#GIMMEH BOLD");
    reveal_strlit("#GIMMEH ITEM");
    reveal_strlit("#GIMMEH LINX");
    reveal_strlit("#MAEK HEAD");
    reveal_strlit("#MAEK LIST");
    reveal_strlit("#LEMMESEE");
    reveal_strlit("#NEWLINE");
    reveal_strlit("#OBTW");
    reveal_strlit("#TLDR");
    reveal_strlit("#KBYE");
    reveal_strlit("#MKAY");
    reveal_strlit("#IHAZ");
    reveal_strlit("#ITIZ");
    assert(tg[0][1] == 'G' && tg[1][1] == 'G' && tg[2][1] == 'M' && tg[3][1] == 'G');
    assert(tg[4][1] == 'G' && tg[5][1] == 'G' && tg[6][1] == 'M' && tg[7][1] == 'M');
    assert(tg[8][1] == 'L' && tg[9][1] == 'N' && tg[10][1] == 'O' && tg[11][1] == 'T');
    assert(tg[12][1] == 'K' && tg[13][1] == 'M' && tg[14][1] == 'I' && tg[15][1] == 'I');
    assert forall|i: int| 0 <= i < 16 implies (#[trigger] tg[i]).len() >= 2 && ascii_fold(tg[i][1]) != ascii_fold(
        'H',
    ) by {
        assert(tg[i].len() >= 4);
    }
}

proof fn lemma_scan_skip(tags: Seq<Seq<char>>, s: Seq<char>, j: int, k: int)
    requires
        0 <= j <= k <= tags.len(),
        forall|i: int| j <= i < k ==> !starts_with_ic(s, #[trigger] tags[i]),
    ensures
        scan_tags(tags, s, j) == scan_tags(tags, s, k),
    decreases k - j,
{
    if j < k {
        assert(!starts_with_ic(s, tags[j]));
        lemma_scan_skip(tags, s, j + 1, k);
    }
}

/// A line that opens with `#HAI`, written in any ASCII case, and goes on
/// with plain text gives the annotation `#HAI` as the standard annotations
/// write it, and then the text.
pub proof fn law_annotation_any_case(h: Seq<char>, t: Seq<char>)
    requires
        h.len() == 4,
        eq_ic(h, "#HAI"@),
        plain_text(t),
    ensures
        lex_lines(standard_tags(), seq![h + " "@ + t], 0) == Lexed::Done(seq!["#HAI"@, text_token(t)]),
{
    reveal_strlit("#HAI");
    reveal_strlit("#OBTW");
    reveal_strlit(" ");
    let tags = standard_tags();
    let line = h + " "@ + t;
    let hai = "#HAI"@;
    assert(hai =~= seq!['#', 'H', 'A', 'I']);
    assert(ascii_fold(h[0]) == ascii_fold(hai[0]));
    assert(ascii_fold(h[1]) == ascii_fold(hai[1]));
    assert(ascii_fold(h[2]) == ascii_fold(hai[2]));
    assert(ascii_fold(h[3]) == ascii_fold(hai[3]));
    lemma_fold_hash(h[0]);
    assert(line[0] == '#' && line[1] == h[1] && line.last() == t.last());
    lemma_trimmed(line);
    assert forall|i: int| 0 <= i < line.len() implies line[i] != '<' && line[i] != '>' && line[i] != '&' by {
        if i < 4 {
            assert(line[i] == h[i]);
        } else if i >= 5 {
            assert(line[i] == t[i - 5]);
        }
    }
    assert(!line.contains('<') && !line.contains('>') && !line.contains('&'));
    assert(line.take(5)[1] == line[1]);
    assert(!eq_ic(line.take(5), "#OBTW"@));
    assert(!starts_with_ic(line, "#OBTW"@));
    // the annotations before `#HAI` do not match
    lemma_before_hai();
    assert forall|i: int| 0 <= i < 16 implies !starts_with_ic(line, #[trigger] tags[i]) by {
        if tags[i].len() <= line.len() {
            assert(line.take(tags[i].len() as int)[1] == line[1]);
        }
    }
    lemma_scan_skip(tags, line, 0, 16);
    assert(line.take(4) =~= h);
    assert(starts_with_ic(line, tags[16]));
    assert(scan_tags(tags, line, 0) == Scan::Hit(16));
    assert(line.skip(4) =~= " "@ + t);
    lemma_trim_start_skip(" "@ + t, 1);
    assert((" "@ + t).skip(1) =~= t);
    assert(trim_start(line.skip(4)) == t);
    lemma_plain_line(tags, t);
    assert(lex_line(tags, line) == prepend(seq![hai], Lexed::Done(seq![text_token(t)])));
    assert(seq![hai] + seq![text_token(t)] =~= seq![hai, text_token(t)]);
    assert(lex_lines(tags, seq![line], 1) == Lexed::Done(Seq::empty()));
    assert(seq![hai, text_token(t)] + Seq::<Seq<char>>::empty() =~= seq![hai, text_token(t)]);
}

/// A line that holds `<`, `>` or `&` is refused, with the error that
/// names it.
pub proof fn law_markup_characters_are_refused(tags: Seq<Seq<char>>, line: Seq<char>, k: int)
    requires
        line.len() > 0,
        !is_ws(line[0]),
        !is_ws(line.last()),
        0 <= k < line.len(),
        line[k] == '<' || line[k] == '>' || line[k] == '&',
    ensures
        lex_lines(tags, seq![line], 0) == Lexed::Failed(
            Seq::empty(),
            "Lexical error: invalid character found in line '"@ + line + "'"@,
        ),
{
    lemma_trimmed(line);
    assert(seq![line][0] == line);
    assert(line.contains(line[k]));
}

/// The whitespace around a line of plain text is dropped: the line gives
/// one text token that holds the text alone.
pub proof fn law_text_line_is_trimmed(tags: Seq<Seq<char>>, p: Seq<char>, t: Seq<char>, q: Seq<char>)
    requires
        plain_text(t),
        forall|i: int| 0 <= i < p.len() ==> is_ws(#[trigger] p[i]),
        forall|i: int| 0 <= i < q.len() ==> is_ws(#[trigger] q[i]),
    ensures
        lex_lines(tags, seq![p + t + q], 0) == Lexed::Done(seq![text_token(t)]),
{
    let line = p + t + q;
    assert forall|i: int| 0 <= i < p.len() implies is_ws(#[trigger] line[i]) by {
        assert(line[i] == p[i]);
    }
    assert(line[p.len() as int] == t[0]);
    lemma_trim_start_skip(line, p.len() as int);
    let u = line.skip(p.len() as int);
    assert(u =~= t + q);
    assert forall|i: int| t.len() <= i < u.len() implies is_ws(#[trigger] u[i]) by {
        assert(u[i] == q[i - t.len()]);
    }
    assert(u[t.len() - 1] == t.last());
    crate::text::lemma_trim_end_take(u, t.len() as int);
    assert(u.take(t.len() as int) =~= t);
    assert(trim(line) == t);
    law_text_line(tags, t);
    assert(seq![line][0] == line);
    assert(seq![t][0] == t);
    assert(lex_lines(tags, seq![line], 1) == Lexed::Done(Seq::empty()));
    assert(lex_lines(tags, seq![t], 1) == Lexed::Done(Seq::empty()));
}

} // verus!
