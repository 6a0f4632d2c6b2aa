//! Properties of the library as a whole, each stated over the models that
//! the functions' contracts use, and proved.
use vstd::prelude::*;
use crate::compiler::{
    body_p, define_p, emit_raw_p, enter_scope_p, exit_scope_p, expect_p, extends, has_ws, text_value,
    undefined_msg, variable_definition_p, variable_usage_p, lemma_body_effects, lemma_expect_effects, lemma_prologue_effects, prologue_p, lemma_tag_lengths, lemma_paragraph_effects, lookup_scopes,
    next_token_p, paragraph_p, program_p, start_p, PState,
};
use crate::lexer::{
    comment_tokens, is_text, lex_line, lex_lines, lex_source, lemma_index_of_from, lemma_scan_tags,
    lemma_tldr_line, lines_from, nonempty, comment_parts, tldr_line, prepend, recognized, scan_tags, source_lines, standard_tags, text_token,
    text_tokens, then, Lexed, Scan, lemma_prepend_assoc, lemma_prepend_empty, strip_cr, starts_with_ic,
};
use crate::text::{
    find_ic, index_of_from, is_ws, join, lemma_find_ic_from, lemma_trim_end_take, lemma_trim_start_len,
    lemma_trim_start_skip, eq_ic,
    trim, trim_end, trim_start,
};

verus! {

/// Every token is one that the parser accepts: a known annotation or a text
/// token, and not empty.
pub open spec fn accepted_tokens(tags: Seq<Seq<char>>, t: Seq<Seq<char>>) -> bool {
    forall|k: int| 0 <= k < t.len() ==> #[trigger] recognized(tags, t[k]) && t[k].len() > 0
}

/// The tokens that a lexing outcome holds are accepted.
pub open spec fn lexed_accepted(tags: Seq<Seq<char>>, l: Lexed) -> bool {
    match l {
        Lexed::Done(t) => accepted_tokens(tags, t),
        Lexed::Failed(t, _) => accepted_tokens(tags, t),
        Lexed::Stuck => true,
    }
}

proof fn lemma_accepted_concat(tags: Seq<Seq<char>>, a: Seq<Seq<char>>, b: Seq<Seq<char>>)
    requires
        accepted_tokens(tags, a),
        accepted_tokens(tags, b),
    ensures
        accepted_tokens(tags, a + b),
{
    assert forall|k: int| 0 <= k < (a + b).len() implies #[trigger] recognized(tags, (a + b)[k]) && (a
        + b)[k].len() > 0 by {
        if k < a.len() {
            assert((a + b)[k] == a[k]);
        } else {
            assert((a + b)[k] == b[k - a.len()]);
        }
    }
}

proof fn lemma_prepend_accepted(tags: Seq<Seq<char>>, pre: Seq<Seq<char>>, r: Lexed)
    requires
        accepted_tokens(tags, pre),
        lexed_accepted(tags, r),
    ensures
        lexed_accepted(tags, prepend(pre, r)),
{
    match r {
        Lexed::Done(t) => lemma_accepted_concat(tags, pre, t),
        Lexed::Failed(t, _) => lemma_accepted_concat(tags, pre, t),
        Lexed::Stuck => {},
    }
}

proof fn lemma_then_accepted(tags: Seq<Seq<char>>, a: Lexed, b: Lexed)
    requires
        lexed_accepted(tags, a),
        lexed_accepted(tags, b),
    ensures
        lexed_accepted(tags, then(a, b)),
{
    if let Lexed::Done(t) = a {
        lemma_prepend_accepted(tags, t, b);
    }
}

proof fn lemma_text_tokens_accepted(tags: Seq<Seq<char>>, t: Seq<char>)
    ensures
        accepted_tokens(tags, text_tokens(t)),
{
    reveal_strlit("TEXT:");
    if t.len() > 0 {
        let tok = text_token(t);
        assert(tok.take(5) =~= "TEXT:"@);
        assert(is_text(tok));
        assert(recognized(tags, text_tokens(t)[0]));
    }
}

proof fn lemma_lex_line_accepted(tags: Seq<Seq<char>>, rest: Seq<char>)
    ensures
        lexed_accepted(tags, lex_line(tags, rest)),
    decreases rest.len(),
{
    if rest.len() > 0 {
        if rest[0] == '#' {
            lemma_scan_tags(tags, rest, 0);
            if let Scan::Hit(j) = scan_tags(tags, rest, 0) {
                if tags[j].len() > 0 {
                    let next = trim_start(rest.skip(tags[j].len() as int));
                    lemma_trim_start_len(rest.skip(tags[j].len() as int));
                    lemma_lex_line_accepted(tags, next);
                    assert(recognized(tags, seq![tags[j]][0]));
                    lemma_prepend_accepted(tags, seq![tags[j]], lex_line(tags, next));
                }
            }
        } else {
            let k = match index_of_from(rest, '#', 0) {
                Some(k) => k,
                None => rest.len() as int,
            };
            lemma_index_of_from(rest, '#', 0);
            lemma_trim_start_len(rest.skip(k));
            lemma_lex_line_accepted(tags, trim_start(rest.skip(k)));
            lemma_text_tokens_accepted(tags, trim(rest.take(k)));
            lemma_prepend_accepted(tags, text_tokens(trim(rest.take(k))), lex_line(tags, trim_start(rest.skip(k))));
        }
    }
}

proof fn lemma_comment_tokens_accepted(tags: Seq<Seq<char>>, body: Seq<char>)
    requires
        tags.contains("#OBTW"@),
        tags.contains("#TLDR"@),
    ensures
        accepted_tokens(tags, comment_tokens(body)),
{
    reveal_strlit("#OBTW");
    reveal_strlit("#TLDR");
    lemma_text_tokens_accepted(tags, body);
    assert(recognized(tags, seq!["#OBTW"@][0]));
    assert(recognized(tags, seq!["#TLDR"@][0]));
    lemma_accepted_concat(tags, seq!["#OBTW"@], text_tokens(body));
    lemma_accepted_concat(tags, seq!["#OBTW"@] + text_tokens(body), seq!["#TLDR"@]);
}

proof fn lemma_lex_lines_accepted(tags: Seq<Seq<char>>, lines: Seq<Seq<char>>, i: int)
    requires
        tags.contains("#OBTW"@),
        tags.contains("#TLDR"@),
    ensures
        lexed_accepted(tags, lex_lines(tags, lines, i)),
    decreases lines.len() - i,
{
    if 0 <= i < lines.len() {
        let line = trim(lines[i]);
        lemma_lex_lines_accepted(tags, lines, i + 1);
        lemma_lex_line_accepted(tags, line);
        lemma_then_accepted(tags, lex_line(tags, line), lex_lines(tags, lines, i + 1));
        reveal_strlit("#OBTW");
        assert(recognized(tags, seq!["#OBTW"@][0]));
        let rest = trim(line.skip(5));
        match crate::text::find_ic(rest, "#TLDR"@) {
            Some(pos) => {
                let after = trim(rest.skip(pos + 5));
                lemma_lex_line_accepted(tags, after);
                lemma_then_accepted(tags, lex_line(tags, after), lex_lines(tags, lines, i + 1));
                lemma_comment_tokens_accepted(tags, trim(rest.take(pos)));
                lemma_prepend_accepted(
                    tags,
                    comment_tokens(trim(rest.take(pos))),
                    then(lex_line(tags, after), lex_lines(tags, lines, i + 1)),
                );
            },
            None => {
                lemma_tldr_line(lines, i + 1);
                if let Some(j) = crate::lexer::tldr_line(lines, i + 1) {
                    let next = trim(lines[j]);
                    let pos = crate::text::find_ic(next, "#TLDR"@)->0;
                    let parts = crate::lexer::nonempty(rest) + crate::lexer::comment_parts(lines, i + 1, j)
                        + crate::lexer::nonempty(trim(next.take(pos)));
                    let body = trim(crate::text::join(parts, " "@));
                    let after = trim(next.skip(pos + 5));
                    lemma_lex_lines_accepted(tags, lines, j + 1);
                    lemma_lex_line_accepted(tags, after);
                    lemma_then_accepted(tags, lex_line(tags, after), lex_lines(tags, lines, j + 1));
                    lemma_comment_tokens_accepted(tags, body);
                    lemma_prepend_accepted(
                        tags,
                        comment_tokens(body),
                        then(lex_line(tags, after), lex_lines(tags, lines, j + 1)),
                    );
                }
            },
        }
    }
}

/// Every token that the lexer produces from a source text, with the
/// standard annotations, is one that the parser accepts: a known annotation
/// or a text token, and never empty.
pub proof fn law_lexer_tokens_accepted(src: Seq<char>)
    ensures
        lexed_accepted(standard_tags(), lex_source(standard_tags(), src)),
{
    let tags = standard_tags();
    assert(tags[10] == "#OBTW"@);
    assert(tags[11] == "#TLDR"@);
    lemma_lex_lines_accepted(tags, source_lines(src), 0);
}

/// Moving to the next token never fails while every token left is accepted,
/// and every token left after the move is still accepted.
pub proof fn law_next_token_succeeds(st: PState)
    requires
        accepted_tokens(st.tags, st.toks),
    ensures
        next_token_p(st) matches Ok(s2) && accepted_tokens(s2.tags, s2.toks),
{
    if st.toks.len() > 0 {
        assert(recognized(st.tags, st.toks[st.toks.len() - 1]));
        let rest = st.toks.drop_last();
        assert forall|k: int| 0 <= k < rest.len() implies #[trigger] recognized(st.tags, rest[k])
            && rest[k].len() > 0 by {
            assert(rest[k] == st.toks[k]);
        }
    }
}

/// A binding is read back: after `name` is bound to `value`, looking `name`
/// up gives `value`, and looking up any other name gives what it gave before.
pub proof fn law_define_then_lookup(st: PState, name: Seq<char>, value: Seq<char>, other: Seq<char>)
    requires
        st.scopes.len() > 0,
    ensures
        lookup_scopes(define_p(st, name, value).scopes, name) == Some(value),
        other != name ==> lookup_scopes(define_p(st, name, value).scopes, other) == lookup_scopes(
            st.scopes,
            other,
        ),
{
    let s2 = define_p(st, name, value).scopes;
    assert(s2.drop_last() =~= st.scopes.drop_last());
}

/// The text of the token `text_token(t)` is `t` itself when `t` neither
/// starts nor ends with whitespace.
pub proof fn lemma_text_value_of_token(t: Seq<char>)
    requires
        t.len() > 0 ==> !is_ws(t[0]) && !is_ws(t.last()),
    ensures
        is_text(text_token(t)),
        text_value(text_token(t)) == t,
{
    reveal_strlit("TEXT:");
    assert(text_token(t).take(5) =~= "TEXT:"@);
    assert(text_token(t).skip(5) =~= t);
    lemma_trim_start_skip(t, 0);
    assert(t.skip(0) =~= t);
    lemma_trim_end_take(t, t.len() as int);
    assert(t.take(t.len() as int) =~= t);
}

/// What is bound is what is used: after `#IHAZ name #ITIZ value #MKAY`, the
/// use `#LEMMESEE name #OIC` emits `value` and a space, and moves on to the
/// tokens that follow. The name is one word and the value has no whitespace
/// at either end, as the lexer trims every text.
pub proof fn law_defined_variable_is_emitted(
    st: PState,
    name: Seq<char>,
    value: Seq<char>,
    rest: Seq<Seq<char>>,
)
    requires
        st.scopes.len() > 0,
        st.tags == standard_tags(),
        st.cur == "#IHAZ"@,
        st.toks == rest + seq![
            "#OIC"@,
            text_token(name),
            "#LEMMESEE"@,
            "#MKAY"@,
            text_token(value),
            "#ITIZ"@,
            text_token(name),
        ],
        accepted_tokens(st.tags, rest),
        name.len() > 0,
        !has_ws(name),
        value.len() > 0,
        !is_ws(value[0]),
        !is_ws(value.last()),
    ensures
        variable_definition_p(st) matches Ok(s1) && {
            &&& s1.cur == "#LEMMESEE"@
            &&& s1.out == st.out
            &&& lookup_scopes(s1.scopes, name) == Some(value)
            &&& variable_usage_p(s1) matches Ok(s2) && {
                &&& s2.out == st.out + value + " "@
                &&& s2.scopes == s1.scopes
                &&& s2.toks == (if rest.len() > 0 { rest.drop_last() } else { rest })
                &&& s2.cur == (if rest.len() > 0 { rest.last() } else { Seq::empty() })
            }
        },
{
    let tags = standard_tags();
    assert(tags[8] == "#LEMMESEE"@);
    assert(tags[13] == "#MKAY"@);
    assert(tags[15] == "#ITIZ"@);
    assert(tags[17] == "#OIC"@);
    lemma_text_value_of_token(name);
    lemma_text_value_of_token(value);
    assert(!is_ws(name[0]) && !is_ws(name[name.len() - 1]));
    let t = st.toks;
    let n = t.len();
    assert(t[n - 1] == text_token(name));
    assert(t[n - 2] == "#ITIZ"@);
    assert(t[n - 3] == text_token(value));
    assert(t[n - 4] == "#MKAY"@);
    assert(t[n - 5] == "#LEMMESEE"@);
    assert(t[n - 6] == text_token(name));
    assert(t[n - 7] == "#OIC"@);
    assert(t.drop_last().drop_last().drop_last().drop_last().drop_last().drop_last().drop_last() =~= rest);
    law_define_then_lookup(st, name, value, name);
    if rest.len() > 0 {
        assert(recognized(tags, rest[rest.len() - 1]));
    }
}

/// A variable is used only after it is defined: `#LEMMESEE name` where no
/// scope binds `name` is the error that says so.
pub proof fn law_undefined_variable_is_rejected(st: PState, name: Seq<char>)
    requires
        eq_ic(st.cur, "#LEMMESEE"@),
        st.toks.len() > 0,
        st.toks.last() == text_token(name),
        name.len() > 0,
        !has_ws(name),
        lookup_scopes(st.scopes, name) is None,
    ensures
        variable_usage_p(st) == Err::<PState, Seq<char>>(undefined_msg(name)),
{
    assert(!is_ws(name[0]));
    assert(!is_ws(name[name.len() - 1]));
    lemma_text_value_of_token(name);
}

/// A scope that is opened and closed again leaves the scopes as they were,
/// whatever was bound inside it.
pub proof fn law_scope_is_local(st: PState, name: Seq<char>, value: Seq<char>)
    requires
        st.scopes.len() > 0,
    ensures
        exit_scope_p(enter_scope_p(st)) == st,
        exit_scope_p(define_p(enter_scope_p(st), name, value)) == st,
{
    assert(enter_scope_p(st).scopes.drop_last() =~= st.scopes);
    assert(define_p(enter_scope_p(st), name, value).scopes.drop_last() =~= st.scopes);
}


/// The variables that a paragraph binds are local to it: a paragraph leaves
/// the scopes as it found them.
pub proof fn law_paragraph_bindings_are_local(st: PState)
    requires
        st.scopes.len() > 0,
    ensures
        paragraph_p(st) matches Ok(s2) ==> s2.scopes == st.scopes,
{
    lemma_paragraph_effects(st);
}

/// A document that parses consumes every token (when no token is empty, as
/// none that the lexer produces is); its HTML is `<html>`, then what the
/// body produces, then `</html>`, after what was there before; and it keeps
/// the number of scopes.
pub proof fn law_program_consumes_all_and_wraps_html(st: PState)
    requires
        st.scopes.len() > 0,
        forall|k: int| 0 <= k < st.toks.len() ==> (#[trigger] st.toks[k]).len() > 0,
    ensures
        program_p(st) matches Ok(s2) ==> {
            &&& s2.toks.len() == 0
            &&& s2.cur.len() == 0
            &&& s2.scopes.len() == st.scopes.len()
            &&& s2.out.len() >= st.out.len() + 15
            &&& s2.out == st.out + "<html>\n"@ + s2.out.subrange(st.out.len() + 7int, s2.out.len() - 8)
                + "</html>\n"@
        },
{
    reveal_strlit("<html>\n");
    reveal_strlit("</html>\n");
    if let Ok(s5) = program_p(st) {
        let s0 = emit_raw_p(st, "<html>\n"@);
        lemma_expect_effects(s0, "#HAI"@);
        let sh = expect_p(s0, "#HAI"@)->Ok_0;
        lemma_prologue_effects(sh);
        let s1 = prologue_p(sh)->Ok_0;
        lemma_body_effects(s1);
        let s2 = body_p(s1)->Ok_0;
        lemma_expect_effects(s2, "#KBYE"@);
        let s3 = expect_p(s2, "#KBYE"@)->Ok_0;
        assert(s5 == emit_raw_p(s3, "</html>\n"@));
        if s2.toks.len() > 0 {
            assert(s2.toks[s2.toks.len() - 1] == st.toks[s2.toks.len() - 1]);
        }
        assert(extends(s0.out, s5.out));
        let mid = s5.out.subrange(st.out.len() + 7int, s5.out.len() - 8);
        assert(s5.out =~= st.out + "<html>\n"@ + mid + "</html>\n"@) by {
            assert forall|i: int| 0 <= i < s5.out.len() implies s5.out[i] == (st.out + "<html>\n"@ + mid
                + "</html>\n"@)[i] by {
                if i < st.out.len() + 7 {
                    assert(s0.out[i] == s5.out[i]);
                }
            }
        }
    }
}


proof fn lemma_lex_line_ends(tags: Seq<Seq<char>>, rest: Seq<char>)
    requires
        forall|k: int| 0 <= k < tags.len() ==> (#[trigger] tags[k]).len() > 0,
    ensures
        !(lex_line(tags, rest) is Stuck),
    decreases rest.len(),
{
    if rest.len() > 0 {
        if rest[0] == '#' {
            lemma_scan_tags(tags, rest, 0);
            if let Scan::Hit(j) = scan_tags(tags, rest, 0) {
                let l = tags[j].len() as int;
                lemma_trim_start_len(rest.skip(l));
                lemma_lex_line_ends(tags, trim_start(rest.skip(l)));
            }
        } else {
            let k = match index_of_from(rest, '#', 0) {
                Some(k) => k,
                None => rest.len() as int,
            };
            lemma_index_of_from(rest, '#', 0);
            lemma_trim_start_len(rest.skip(k));
            lemma_lex_line_ends(tags, trim_start(rest.skip(k)));
        }
    }
}

proof fn lemma_lex_lines_end(tags: Seq<Seq<char>>, lines: Seq<Seq<char>>, i: int)
    requires
        forall|k: int| 0 <= k < tags.len() ==> (#[trigger] tags[k]).len() > 0,
    ensures
        !(lex_lines(tags, lines, i) is Stuck),
    decreases lines.len() - i,
{
    if 0 <= i < lines.len() {
        let line = trim(lines[i]);
        lemma_lex_lines_end(tags, lines, i + 1);
        lemma_lex_line_ends(tags, line);
        let rest = trim(line.skip(5));
        match find_ic(rest, "#TLDR"@) {
            Some(pos) => {
                lemma_lex_line_ends(tags, trim(rest.skip(pos + 5)));
            },
            None => {
                lemma_tldr_line(lines, i + 1);
                if let Some(j) = tldr_line(lines, i + 1) {
                    let next = trim(lines[j]);
                    let pos = find_ic(next, "#TLDR"@)->0;
                    lemma_lex_line_ends(tags, trim(next.skip(pos + 5)));
                    lemma_lex_lines_end(tags, lines, j + 1);
                }
            },
        }
    }
}

/// Every source text lexes to tokens or to a lexical error, with
/// annotations none of which is empty (as none of the standard ones is):
/// the lexer never runs without end.
pub proof fn law_every_source_lexes(tags: Seq<Seq<char>>, src: Seq<char>)
    requires
        forall|k: int| 0 <= k < tags.len() ==> (#[trigger] tags[k]).len() > 0,
    ensures
        lex_source(tags, src) is Done || lex_source(tags, src) is Failed,
{
    lemma_lex_lines_end(tags, source_lines(src), 0);
}

/// None of the standard annotations is empty.
pub proof fn law_standard_tags_not_empty()
    ensures
        forall|k: int| 0 <= k < standard_tags().len() ==> (#[trigger] standard_tags()[k]).len() > 0,
{
    lemma_tag_lengths();
    reveal_strlit("#GIMMEH ITALICS");
    reveal_strlit("#GIMMEH TITLE");
    reveal_strlit("#GIMMEH LINX");
    reveal_strlit("#MAEK LIST");
    reveal_strlit("#ITIZ");
}


/// After lexing, the parser reads the tokens in source order: starting on
/// the tokens `t` (stored last one first), the current token becomes `t[0]`
/// and the rest stays, in order; with no token at all, the file is empty.
pub proof fn law_start_reads_first_token(st: PState, t: Seq<Seq<char>>)
    requires
        accepted_tokens(st.tags, t),
    ensures
        t.len() > 0 ==> start_p(PState { toks: t.reverse(), ..st }) == Ok::<PState, Seq<char>>(
            PState { toks: t.skip(1).reverse(), cur: t[0], ..st },
        ),
        t.len() == 0 ==> start_p(PState { toks: t.reverse(), ..st }) == Err::<PState, Seq<char>>(
            "User error: the provided file is empty."@,
        ),
{
    let r = t.reverse();
    if t.len() > 0 {
        assert(r.last() == t[0]);
        assert(recognized(st.tags, t[0]));
        assert(r.drop_last() =~= t.skip(1).reverse());
    } else {
        assert(r.len() == 0);
    }
}

/// The state after `k` moves to the next token, or the first error.
pub open spec fn next_tokens_p(st: PState, k: nat) -> Result<PState, Seq<char>>
    decreases k,
{
    if k == 0 {
        Ok(st)
    } else {
        match next_tokens_p(st, (k - 1) as nat) {
            Err(e) => Err(e),
            Ok(s) => next_token_p(s),
        }
    }
}

/// Successive moves read the tokens in source order: starting on the tokens
/// `t` (stored last one first), each of them accepted, the `k`-th move never
/// fails and makes `t[k - 1]` the current token, and nothing once the tokens
/// are exhausted; the tokens after it stay, in order.
pub proof fn law_successive_next_tokens(st: PState, t: Seq<Seq<char>>, k: nat)
    requires
        st.toks == t.reverse(),
        accepted_tokens(st.tags, t),
    ensures
        next_tokens_p(st, k) matches Ok(s) && {
            &&& k == 0 ==> s == st
            &&& 0 < k <= t.len() ==> s.cur == t[k - 1]
            &&& k > t.len() ==> s.cur.len() == 0
            &&& s.toks == t.skip(if k <= t.len() { k as int } else { t.len() as int }).reverse()
            &&& s.scopes == st.scopes && s.out == st.out && s.tags == st.tags
        },
    decreases k,
{
    if k == 0 {
        assert(t.skip(0) =~= t);
    } else {
        law_successive_next_tokens(st, t, (k - 1) as nat);
        let s = next_tokens_p(st, (k - 1) as nat)->Ok_0;
        let m: int = if k - 1 <= t.len() { k - 1 } else { t.len() as int };
        let r = t.skip(m).reverse();
        if m < t.len() {
            assert(r.last() == t[m]);
            assert(recognized(st.tags, t[m]) && t[m].len() > 0);
            assert(r.drop_last() =~= t.skip(m + 1).reverse());
        } else {
            assert(r.len() == 0);
        }
    }
}

// ---------------------------------------------------------------- joined sources

proof fn lemma_index_of_from_append(p: Seq<char>, s: Seq<char>, c: char, i: int)
    requires
        0 <= i,
    ensures
        match index_of_from(s, c, i) {
            Some(k) => index_of_from(p + s, c, p.len() + i) == Some(p.len() + k),
            None => index_of_from(p + s, c, p.len() + i) is None,
        },
    decreases s.len() - i,
{
    if i < s.len() {
        assert((p + s)[p.len() + i] == s[i]);
        lemma_index_of_from_append(p, s, c, i + 1);
    }
}

proof fn lemma_lines_from_append(p: Seq<char>, s: Seq<char>, i: int)
    requires
        0 <= i,
    ensures
        lines_from(p + s, p.len() + i) == lines_from(s, i),
    decreases s.len() - i,
{
    if i < s.len() {
        lemma_index_of_from_append(p, s, '\n', i);
        lemma_index_of_from(s, '\n', i);
        match index_of_from(s, '\n', i) {
            None => {
                assert((p + s).subrange(p.len() + i, (p + s).len() as int) =~= s.subrange(i, s.len() as int));
            },
            Some(k) => {
                assert((p + s).subrange(p.len() + i, p.len() + k) =~= s.subrange(i, k));
                lemma_lines_from_append(p, s, k + 1);
            },
        }
    }
}

proof fn lemma_index_of_from_prefix(a: Seq<char>, rest: Seq<char>, c: char, i: int)
    requires
        0 <= i <= a.len(),
        rest.len() > 0,
        rest[0] == c,
    ensures
        index_of_from(a + rest, c, i) == match index_of_from(a, c, i) {
            Some(k) => Some(k),
            None => Some(a.len() as int),
        },
    decreases a.len() - i,
{
    if i < a.len() {
        assert((a + rest)[i] == a[i]);
        lemma_index_of_from_prefix(a, rest, c, i + 1);
    } else {
        assert((a + rest)[i] == rest[0]);
    }
}

/// `x` is the lines `la` as they stand before a further line: with one
/// empty line more, or with the carriage return of the last line dropped.
spec fn joined_lines(la: Seq<Seq<char>>, x: Seq<Seq<char>>) -> bool {
    ||| x == la.push(Seq::empty())
    ||| (la.len() > 0 && x == la.update(la.len() - 1, strip_cr(la.last())))
}

proof fn lemma_lines_join(a: Seq<char>, b: Seq<char>, i: int) -> (x: Seq<Seq<char>>)
    requires
        0 <= i <= a.len(),
    ensures
        joined_lines(lines_from(a, i), x),
        lines_from(a + ("\n"@ + b), i) == x + lines_from(b, 0),
    decreases a.len() - i,
{
    reveal_strlit("\n");
    let j = a + ("\n"@ + b);
    let n = a.len() as int;
    let nl = "\n"@ + b;
    assert(nl[0] == '\n');
    lemma_index_of_from_prefix(a, nl, '\n', i);
    assert(j =~= (a + "\n"@) + b);
    lemma_lines_from_append(a + "\n"@, b, 0);
    assert(lines_from(j, n + 1) == lines_from(b, 0));
    if i == n {
        assert(j.subrange(n, n) =~= Seq::<char>::empty());
        let x = seq![Seq::<char>::empty()];
        assert(lines_from(a, i) =~= Seq::<Seq<char>>::empty());
        assert(x =~= lines_from(a, i).push(Seq::empty()));
        x
    } else {
        lemma_index_of_from(a, '\n', i);
        match index_of_from(a, '\n', i) {
            None => {
                assert(j.subrange(i, n) =~= a.subrange(i, n));
                let la = lines_from(a, i);
                let x = seq![strip_cr(a.subrange(i, n))];
                assert(x =~= la.update(la.len() - 1, strip_cr(la.last())));
                x
            },
            Some(k) => {
                assert(j.subrange(i, k) =~= a.subrange(i, k));
                let h = strip_cr(a.subrange(i, k));
                let x1 = lemma_lines_join(a, b, k + 1);
                let la1 = lines_from(a, k + 1);
                let la = lines_from(a, i);
                assert(la == seq![h] + la1);
                let x = seq![h] + x1;
                assert(lines_from(j, i) =~= x + lines_from(b, 0));
                if x1 == la1.push(Seq::empty()) {
                    assert(x =~= la.push(Seq::empty()));
                } else {
                    assert(x =~= la.update(la.len() - 1, strip_cr(la.last())));
                }
                x
            },
        }
    }
}

proof fn lemma_then_done(a: Lexed, b: Lexed)
    requires
        then(a, b) is Done,
    ensures
        a is Done,
        b is Done,
        then(a, b)->Done_0 == a->Done_0 + b->Done_0,
{
}

proof fn lemma_tldr_line_append(p: Seq<Seq<char>>, l: Seq<Seq<char>>, j: int)
    requires
        0 <= j,
    ensures
        match tldr_line(l, j) {
            Some(k) => tldr_line(p + l, p.len() + j) == Some(p.len() + k),
            None => tldr_line(p + l, p.len() + j) is None,
        },
    decreases l.len() - j,
{
    if j < l.len() {
        assert((p + l)[p.len() + j] == l[j]);
        lemma_tldr_line_append(p, l, j + 1);
    }
}

proof fn lemma_comment_parts_append(p: Seq<Seq<char>>, l: Seq<Seq<char>>, f: int, t: int)
    requires
        0 <= f,
        t <= l.len(),
    ensures
        comment_parts(p + l, p.len() + f, p.len() + t) == comment_parts(l, f, t),
    decreases t - f,
{
    if f < t {
        assert((p + l)[p.len() + f] == l[f]);
        lemma_comment_parts_append(p, l, f + 1, t);
    }
}

/// Lines after others lex as they do on their own.
proof fn lemma_lex_lines_append(tags: Seq<Seq<char>>, p: Seq<Seq<char>>, l: Seq<Seq<char>>, i: int)
    requires
        0 <= i,
    ensures
        lex_lines(tags, p + l, p.len() + i) == lex_lines(tags, l, i),
    decreases l.len() - i,
{
    if i < l.len() {
        assert((p + l)[p.len() + i] == l[i]);
        lemma_lex_lines_append(tags, p, l, i + 1);
        lemma_tldr_line_append(p, l, i + 1);
        lemma_tldr_line(l, i + 1);
        if let Some(k) = tldr_line(l, i + 1) {
            assert((p + l)[p.len() + k] == l[k]);
            lemma_comment_parts_append(p, l, i + 1, k);
            lemma_lex_lines_append(tags, p, l, k + 1);
        }
    }
}

proof fn lemma_tldr_line_prefix(x: Seq<Seq<char>>, y: Seq<Seq<char>>, j: int)
    requires
        tldr_line(x, j) is Some,
    ensures
        tldr_line(x + y, j) == tldr_line(x, j),
    decreases x.len() - j,
{
    lemma_tldr_line(x, j);
    assert((x + y)[j] == x[j]);
    if find_ic(trim(x[j]), "#TLDR"@) is None {
        lemma_tldr_line_prefix(x, y, j + 1);
    }
}

proof fn lemma_comment_parts_prefix(x: Seq<Seq<char>>, y: Seq<Seq<char>>, f: int, t: int)
    requires
        0 <= f,
        t <= x.len(),
    ensures
        comment_parts(x + y, f, t) == comment_parts(x, f, t),
    decreases t - f,
{
    if f < t {
        assert((x + y)[f] == x[f]);
        lemma_comment_parts_prefix(x, y, f + 1, t);
    }
}

/// Lines that lex without error from line `i` lex the same way when more
/// lines follow, and the lexing goes on with those.
#[verifier::rlimit(30)]
proof fn lemma_lex_lines_prefix(tags: Seq<Seq<char>>, x: Seq<Seq<char>>, y: Seq<Seq<char>>, i: int)
    requires
        0 <= i <= x.len(),
        lex_lines(tags, x, i) is Done,
    ensures
        lex_lines(tags, x + y, i) == prepend(
            lex_lines(tags, x, i)->Done_0,
            lex_lines(tags, x + y, x.len() as int),
        ),
    decreases x.len() - i,
{
    if i == x.len() {
        lemma_prepend_empty(lex_lines(tags, x + y, x.len() as int));
    } else {
        assert((x + y)[i] == x[i]);
        let line = trim(x[i]);
        let z = lex_lines(tags, x + y, x.len() as int);
        if line.len() == 0 {
            lemma_lex_lines_prefix(tags, x, y, i + 1);
        } else if line.contains('<') || line.contains('>') || line.contains('&') {
        } else if starts_with_ic(line, "#OBTW"@) {
            let rest = trim(line.skip(5));
            match find_ic(rest, "#TLDR"@) {
                Some(pos) => {
                    let ct = comment_tokens(trim(rest.take(pos)));
                    let ll = lex_line(tags, trim(rest.skip(pos + 5)));
                    lemma_then_done(ll, lex_lines(tags, x, i + 1));
                    lemma_lex_lines_prefix(tags, x, y, i + 1);
                    let tl = ll->Done_0;
                    let r1 = lex_lines(tags, x, i + 1)->Done_0;
                    lemma_prepend_assoc(tl, r1, z);
                    lemma_prepend_assoc(ct, tl + r1, z);
                    assert(ct + (tl + r1) =~= lex_lines(tags, x, i)->Done_0);
                },
                None => {
                    lemma_tldr_line(x, i + 1);
                    let k = tldr_line(x, i + 1)->0;
                    lemma_tldr_line_prefix(x, y, i + 1);
                    lemma_comment_parts_prefix(x, y, i + 1, k);
                    assert((x + y)[k] == x[k]);
                    let next = trim(x[k]);
                    let pos = find_ic(next, "#TLDR"@)->0;
                    let parts = nonempty(rest) + comment_parts(x, i + 1, k) + nonempty(trim(next.take(pos)));
                    let ct = comment_tokens(trim(join(parts, " "@)));
                    let ll = lex_line(tags, trim(next.skip(pos + 5)));
                    lemma_then_done(ll, lex_lines(tags, x, k + 1));
                    lemma_lex_lines_prefix(tags, x, y, k + 1);
                    let tl = ll->Done_0;
                    let r1 = lex_lines(tags, x, k + 1)->Done_0;
                    lemma_prepend_assoc(tl, r1, z);
                    lemma_prepend_assoc(ct, tl + r1, z);
                    assert(ct + (tl + r1) =~= lex_lines(tags, x, i)->Done_0);
                },
            }
        } else {
            let ll = lex_line(tags, line);
            lemma_then_done(ll, lex_lines(tags, x, i + 1));
            lemma_lex_lines_prefix(tags, x, y, i + 1);
            lemma_prepend_assoc(ll->Done_0, lex_lines(tags, x, i + 1)->Done_0, z);
        }
    }
}

proof fn lemma_trim_start_drop_ws(s: Seq<char>)
    requires
        s.len() > 0,
        is_ws(s.last()),
    ensures
        (trim_start(s).len() == 0 && trim_start(s.drop_last()).len() == 0) || trim_start(s)
            == trim_start(s.drop_last()).push(s.last()),
    decreases s.len(),
{
    if is_ws(s[0]) {
        if s.len() > 1 {
            let t = s.drop_first();
            assert(t.drop_last() =~= s.drop_last().drop_first());
            assert(t.last() == s.last());
            assert(s.drop_last()[0] == s[0]);
            assert(trim_start(s.drop_last()) == trim_start(s.drop_last().drop_first()));
            lemma_trim_start_drop_ws(t);
            assert(trim_start(s) == trim_start(t));
        } else {
            assert(s.drop_first() =~= Seq::<char>::empty());
            assert(s.drop_last() =~= Seq::<char>::empty());
            assert(trim_start(s) == trim_start(s.drop_first()));
            assert(trim_start(Seq::<char>::empty()) == Seq::<char>::empty());
        }
    } else {
        assert(s.len() > 1);
        assert(s.drop_last()[0] == s[0]);
        assert(trim_start(s.drop_last()) == s.drop_last());
        assert(s.drop_last().push(s.last()) =~= s);
    }
}

/// Whitespace at the end of a line does not change the line once trimmed.
proof fn lemma_trim_drop_ws(s: Seq<char>)
    requires
        s.len() > 0,
        is_ws(s.last()),
    ensures
        trim(s) == trim(s.drop_last()),
{
    lemma_trim_start_drop_ws(s);
    let t = trim_start(s.drop_last());
    if trim_start(s) != t.push(s.last()) {
        assert(trim_start(s) =~= Seq::<char>::empty());
        assert(t =~= Seq::<char>::empty());
    } else {
        assert(t.push(s.last()).drop_last() =~= t);
    }
}

/// Lines whose trimmed forms agree lex alike.
proof fn lemma_lex_lines_trimmed(tags: Seq<Seq<char>>, x: Seq<Seq<char>>, l: Seq<Seq<char>>, i: int)
    requires
        x.len() == l.len(),
        forall|k: int| 0 <= k < l.len() ==> trim(#[trigger] x[k]) == trim(l[k]),
    ensures
        lex_lines(tags, x, i) == lex_lines(tags, l, i),
    decreases l.len() - i,
{
    if 0 <= i < l.len() {
        assert(trim(x[i]) == trim(l[i]));
        lemma_lex_lines_trimmed(tags, x, l, i + 1);
        lemma_tldr_line_trimmed(x, l, i + 1);
        lemma_tldr_line(l, i + 1);
        if let Some(k) = tldr_line(l, i + 1) {
            assert(trim(x[k]) == trim(l[k]));
            lemma_comment_parts_trimmed(x, l, i + 1, k);
            lemma_lex_lines_trimmed(tags, x, l, k + 1);
        }
    }
}

proof fn lemma_tldr_line_trimmed(x: Seq<Seq<char>>, l: Seq<Seq<char>>, j: int)
    requires
        x.len() == l.len(),
        forall|k: int| 0 <= k < l.len() ==> trim(#[trigger] x[k]) == trim(l[k]),
    ensures
        tldr_line(x, j) == tldr_line(l, j),
    decreases l.len() - j,
{
    if 0 <= j < l.len() {
        assert(trim(x[j]) == trim(l[j]));
        lemma_tldr_line_trimmed(x, l, j + 1);
    }
}

proof fn lemma_comment_parts_trimmed(x: Seq<Seq<char>>, l: Seq<Seq<char>>, f: int, t: int)
    requires
        x.len() == l.len(),
        0 <= f,
        t <= l.len(),
        forall|k: int| 0 <= k < l.len() ==> trim(#[trigger] x[k]) == trim(l[k]),
    ensures
        comment_parts(x, f, t) == comment_parts(l, f, t),
    decreases t - f,
{
    if f < t {
        assert(trim(x[f]) == trim(l[f]));
        lemma_comment_parts_trimmed(x, l, f + 1, t);
    }
}

/// Lexing two source texts joined by a line break gives the tokens of the
/// first, then those of the second, when each of them lexes without error on
/// its own.
pub proof fn law_joined_sources_lex_in_sequence(tags: Seq<Seq<char>>, a: Seq<char>, b: Seq<char>)
    requires
        lex_source(tags, a) is Done,
        lex_source(tags, b) is Done,
    ensures
        lex_source(tags, a + "\n"@ + b) == Lexed::Done(
            lex_source(tags, a)->Done_0 + lex_source(tags, b)->Done_0,
        ),
{
    let la = source_lines(a);
    let lb = source_lines(b);
    let ta = lex_source(tags, a)->Done_0;
    let tb = lex_source(tags, b)->Done_0;
    let x = lemma_lines_join(a, b, 0);
    assert(a + "\n"@ + b =~= a + ("\n"@ + b));
    assert(source_lines(a + "\n"@ + b) == x + lb);
    if x == la.push(Seq::empty()) {
        lemma_lex_lines_prefix(tags, la, seq![Seq::<char>::empty()] + lb, 0);
        assert(la + (seq![Seq::<char>::empty()] + lb) =~= x + lb);
        assert((x + lb)[la.len() as int] == Seq::<char>::empty());
        assert(trim(Seq::<char>::empty()) =~= Seq::<char>::empty());
        lemma_lex_lines_append(tags, x, lb, 0);
        assert(lex_lines(tags, x + lb, la.len() as int) == lex_lines(tags, x + lb, la.len() + 1int));
    } else {
        let last = la.last();
        assert forall|k: int| 0 <= k < la.len() implies trim(#[trigger] x[k]) == trim(la[k]) by {
            if k == la.len() - 1 && last.len() > 0 && last.last() == '\r' {
                lemma_trim_drop_ws(last);
            }
        }
        lemma_lex_lines_trimmed(tags, x, la, 0);
        lemma_lex_lines_prefix(tags, x, lb, 0);
        lemma_lex_lines_append(tags, x, lb, 0);
    }
    lemma_prepend_assoc(ta, tb, Lexed::Done(Seq::empty()));
    assert(tb + Seq::<Seq<char>>::empty() =~= tb);
    assert(ta + tb + Seq::<Seq<char>>::empty() =~= ta + tb);
}

} // verus!
