//! Properties of what each annotation produces, wherever it may stand,
//! stated over the tokens it is made of and the text it emits.
use vstd::prelude::*;
use crate::compiler::{
    body_item_p, bold_p, comment_p, head_p, item_p, item_piece_p, item_pieces_p, italics_p, link_p,
    list_block_p, list_entry_p, list_items_p, newline_p, next_token_p, paragraph_item_p, paragraph_items_p,
    paragraph_p, prologue_p, text_p, title_p, wrapped_text_p, has_ws, lookup_scopes, PState,
};
use crate::laws::{accepted_tokens, lemma_text_value_of_token};
use crate::lexer::{comment_parts, is_text, nonempty, recognized, standard_tags, text_token};
use crate::text::{ascii_fold, eq_ic, is_ws, trim};

verus! {

/// The state after the current annotation: `html` and then `tail` appended
/// to the output, and the next token of `rest` (nothing when there is none)
/// current.
pub open spec fn moved_on(st: PState, rest: Seq<Seq<char>>, html: Seq<char>, tail: Seq<char>) -> PState {
    PState {
        out: st.out + html + tail,
        toks: if rest.len() > 0 { rest.drop_last() } else { rest },
        cur: if rest.len() > 0 { rest.last() } else { Seq::empty() },
        ..st
    }
}

/// A text with no whitespace at either end and not empty, as the lexer
/// produces it.
pub open spec fn trimmed_text(t: Seq<char>) -> bool {
    t.len() > 0 && !is_ws(t[0]) && !is_ws(t.last())
}

// ---------------------------------------------------------------- tokens

proof fn lemma_tags()
    ensures
        "#OBTW"@.len() == 5 && "#OBTW"@[0] == '#' && "#OBTW"@[1] == 'O',
        "#TLDR"@.len() == 5 && "#TLDR"@[0] == '#',
        "#MKAY"@.len() == 5 && "#MKAY"@[0] == '#' && "#MKAY"@[1] == 'M',
        "#IHAZ"@.len() == 5 && "#IHAZ"@[0] == '#',
        "#OIC"@.len() == 4 && "#OIC"@[0] == '#',
        "#NEWLINE"@.len() == 8 && "#NEWLINE"@[0] == '#',
        "#LEMMESEE"@.len() == 9 && "#LEMMESEE"@[0] == '#',
        "#MAEK LIST"@.len() == 10 && "#MAEK LIST"@[0] == '#',
        "#MAEK HEAD"@.len() == 10 && "#MAEK HEAD"@[0] == '#',
        "#GIMMEH BOLD"@.len() == 12 && "#GIMMEH BOLD"@[0] == '#' && "#GIMMEH BOLD"@[8] == 'B',
        "#GIMMEH LINX"@.len() == 12 && "#GIMMEH LINX"@[0] == '#' && "#GIMMEH LINX"@[8] == 'L',
        "#GIMMEH ITEM"@.len() == 12 && "#GIMMEH ITEM"@[0] == '#' && "#GIMMEH ITEM"@[8] == 'I',
        "#GIMMEH TITLE"@.len() == 13 && "#GIMMEH TITLE"@[0] == '#',
        "#MAEK PARAGRAF"@.len() == 14 && "#MAEK PARAGRAF"@[0] == '#',
        "#GIMMEH ITALICS"@.len() == 15 && "#GIMMEH ITALICS"@[0] == '#',
        "TEXT:"@.len() == 5 && "TEXT:"@[0] == 'T',
{
    reveal_strlit("#OBTW");
    reveal_strlit("#TLDR");
    reveal_strlit("#MKAY");
    reveal_strlit("#IHAZ");
    reveal_strlit("#OIC");
    reveal_strlit("#NEWLINE");
    reveal_strlit("#LEMMESEE");
    reveal_strlit("#MAEK LIST");
    reveal_strlit("#MAEK HEAD");
    reveal_strlit("#GIMMEH BOLD");
    reveal_strlit("#GIMMEH LINX");
    reveal_strlit("#GIMMEH ITEM");
    reveal_strlit("#GIMMEH TITLE");
    reveal_strlit("#MAEK PARAGRAF");
    reveal_strlit("#GIMMEH ITALICS");
    reveal_strlit("TEXT:");
}

/// Two tokens that differ, ignoring ASCII case, at position `i` differ.
proof fn lemma_differ_at(a: Seq<char>, b: Seq<char>, i: int)
    requires
        0 <= i < a.len(),
        i < b.len(),
        ascii_fold(a[i]) != ascii_fold(b[i]),
    ensures
        !eq_ic(a, b),
{
}

/// A token that starts with `T` is no annotation.
proof fn lemma_not_annotation(a: Seq<char>, b: Seq<char>)
    requires
        a.len() > 0,
        b.len() > 0,
        b[0] == '#',
        a[0] == 'T',
    ensures
        !eq_ic(a, b),
{
    lemma_differ_at(a, b, 0);
}

/// A text token starts with `T`; an annotation is no text token.
proof fn lemma_text_shape(a: Seq<char>)
    ensures
        is_text(a) ==> a.len() > 0 && a[0] == 'T',
        a.len() > 0 && a[0] == '#' ==> !is_text(a),
{
    lemma_tags();
    if is_text(a) {
        assert(a.take(5)[0] == a[0]);
    }
    if a.len() >= 5 && a[0] == '#' {
        assert(a.take(5)[0] == '#');
    }
}

/// The known annotations that the laws below read.
proof fn lemma_known(tags: Seq<Seq<char>>)
    requires
        tags == standard_tags(),
    ensures
        recognized(tags, "#OIC"@),
        recognized(tags, "#NEWLINE"@),
        recognized(tags, "#TLDR"@),
        recognized(tags, "#MKAY"@),
        recognized(tags, "#GIMMEH ITEM"@),
        recognized(tags, "#GIMMEH TITLE"@),
{
    assert(tags[17] == "#OIC"@);
    assert(tags[9] == "#NEWLINE"@);
    assert(tags[11] == "#TLDR"@);
    assert(tags[13] == "#MKAY"@);
    assert(tags[4] == "#GIMMEH ITEM"@);
    assert(tags[1] == "#GIMMEH TITLE"@);
}

/// Moving past the current token onto the tokens `rest`.
proof fn lemma_move(st: PState, rest: Seq<Seq<char>>)
    requires
        st.toks == rest,
        accepted_tokens(st.tags, rest),
    ensures
        next_token_p(st) == Ok::<PState, Seq<char>>(moved_on(st, rest, Seq::empty(), Seq::empty())),
{
    if rest.len() > 0 {
        assert(recognized(st.tags, rest[rest.len() - 1]));
    }
    assert(st.out + Seq::<char>::empty() + Seq::<char>::empty() =~= st.out);
}

/// Moving past the current token onto `tok`, with `rest` after it.
proof fn lemma_move_onto(st: PState, rest: Seq<Seq<char>>, tok: Seq<char>)
    requires
        st.toks == rest.push(tok),
        recognized(st.tags, tok),
        tok.len() > 0,
    ensures
        next_token_p(st) == Ok::<PState, Seq<char>>(PState { toks: rest, cur: tok, ..st }),
{
    assert(rest.push(tok).drop_last() =~= rest);
}

/// `moved_on` after moving again.
proof fn lemma_moved_twice(st: PState, rest: Seq<Seq<char>>, a: Seq<char>, b: Seq<char>)
    ensures
        moved_on(PState { out: st.out + a, ..st }, rest, b, Seq::empty()) == moved_on(st, rest, a + b, Seq::empty()),
{
    assert(st.out + a + b + Seq::<char>::empty() =~= st.out + (a + b) + Seq::<char>::empty());
}

// ---------------------------------------------------------------- rules

proof fn lemma_text_rule(st: PState, t: Seq<char>, rest: Seq<Seq<char>>)
    requires
        st.cur == text_token(t),
        st.toks == rest,
        accepted_tokens(st.tags, rest),
        trimmed_text(t),
    ensures
        text_p(st) == Ok::<PState, Seq<char>>(moved_on(st, rest, t, " "@)),
{
    lemma_text_value_of_token(t);
    let s1 = PState { out: st.out + t + " "@, ..st };
    lemma_move(s1, rest);
    assert(s1.out + Seq::<char>::empty() + Seq::<char>::empty() =~= st.out + t + " "@);
}

proof fn lemma_wrapped_rule(
    st: PState,
    open: Seq<char>,
    what: Seq<char>,
    before: Seq<char>,
    after: Seq<char>,
    piece: bool,
    vars: bool,
    t: Seq<char>,
    rest: Seq<Seq<char>>,
)
    requires
        st.tags == standard_tags(),
        st.cur == open,
        st.toks == rest + seq!["#OIC"@, text_token(t)],
        accepted_tokens(st.tags, rest),
        trimmed_text(t),
    ensures
        wrapped_text_p(st, open, what, before, after, piece, vars) == Ok::<PState, Seq<char>>(
            moved_on(st, rest, before + t + after, if piece { " "@ } else { Seq::empty() }),
        ),
{
    lemma_tags();
    lemma_known(st.tags);
    lemma_text_value_of_token(t);
    let r1 = rest.push("#OIC"@);
    assert(st.toks =~= r1.push(text_token(t)));
    lemma_move_onto(st, r1, text_token(t));
    let s1 = PState { toks: r1, cur: text_token(t), ..st };
    lemma_move_onto(s1, rest, "#OIC"@);
    let h = before + t + after;
    let tail = if piece { " "@ } else { Seq::<char>::empty() };
    let s3 = PState { out: st.out + h + tail, toks: rest, cur: "#OIC"@, ..st };
    if !piece {
        assert(st.out + h =~= st.out + h + tail);
    }
    lemma_move(s3, rest);
    assert(s3.out + Seq::<char>::empty() + Seq::<char>::empty() =~= st.out + h + tail);
}

proof fn lemma_link_rule(st: PState, t: Seq<char>, rest: Seq<Seq<char>>)
    requires
        st.tags == standard_tags(),
        st.cur == "#GIMMEH LINX"@,
        st.toks == rest + seq!["#OIC"@, text_token(t)],
        accepted_tokens(st.tags, rest),
        trimmed_text(t),
    ensures
        link_p(st) == Ok::<PState, Seq<char>>(
            moved_on(st, rest, "<a href=\""@ + t + "\">"@ + t + "</a>"@, " "@),
        ),
{
    lemma_tags();
    lemma_known(st.tags);
    lemma_text_value_of_token(t);
    let r1 = rest.push("#OIC"@);
    assert(st.toks =~= r1.push(text_token(t)));
    lemma_move_onto(st, r1, text_token(t));
    let s1 = PState { toks: r1, cur: text_token(t), ..st };
    lemma_move_onto(s1, rest, "#OIC"@);
    let h = "<a href=\""@ + t + "\">"@ + t + "</a>"@;
    let s3 = PState { out: st.out + h + " "@, toks: rest, cur: "#OIC"@, ..st };
    lemma_move(s3, rest);
    assert(s3.out + Seq::<char>::empty() + Seq::<char>::empty() =~= st.out + h + " "@);
}

proof fn lemma_newline_rule(st: PState, rest: Seq<Seq<char>>)
    requires
        st.cur == "#NEWLINE"@,
        st.toks == rest,
        accepted_tokens(st.tags, rest),
    ensures
        newline_p(st) == Ok::<PState, Seq<char>>(moved_on(st, rest, "<br>\n"@, Seq::empty())),
{
    lemma_move(st, rest);
    assert(st.out + "<br>\n"@ + Seq::<char>::empty() =~= st.out + Seq::<char>::empty() + Seq::<char>::empty()
        + "<br>\n"@);
}

proof fn lemma_comment_rule(st: PState, t: Seq<char>, rest: Seq<Seq<char>>)
    requires
        st.tags == standard_tags(),
        st.cur == "#OBTW"@,
        st.toks == rest + seq!["#TLDR"@, text_token(t)],
        accepted_tokens(st.tags, rest),
        trimmed_text(t),
    ensures
        comment_p(st) == Ok::<PState, Seq<char>>(moved_on(st, rest, "<!-- "@ + t + " -->\n"@, Seq::empty())),
{
    lemma_tags();
    lemma_known(st.tags);
    lemma_text_value_of_token(t);
    let r1 = rest.push("#TLDR"@);
    assert(st.toks =~= r1.push(text_token(t)));
    lemma_move_onto(st, r1, text_token(t));
    let s1 = PState { toks: r1, cur: text_token(t), ..st };
    lemma_move_onto(s1, rest, "#TLDR"@);
    let s2 = PState { toks: rest, cur: "#TLDR"@, ..st };
    lemma_move(s2, rest);
    let h = "<!-- "@ + t + " -->\n"@;
    assert(st.out + Seq::<char>::empty() + Seq::<char>::empty() + h =~= st.out + h + Seq::<char>::empty());
}

// ---------------------------------------------------------------- where annotations stand

proof fn lemma_text_not_tags(c: Seq<char>)
    requires
        is_text(c),
    ensures
        !eq_ic(c, "#OBTW"@),
        !eq_ic(c, "#MAEK PARAGRAF"@),
        !eq_ic(c, "#GIMMEH BOLD"@),
        !eq_ic(c, "#GIMMEH ITALICS"@),
        !eq_ic(c, "#MAEK LIST"@),
        !eq_ic(c, "#NEWLINE"@),
        !eq_ic(c, "#GIMMEH LINX"@),
        !eq_ic(c, "#IHAZ"@),
        !eq_ic(c, "#LEMMESEE"@),
        !eq_ic(c, "#MKAY"@),
        !eq_ic(c, "#OIC"@),
{
    lemma_tags();
    lemma_text_shape(c);
    lemma_not_annotation(c, "#OBTW"@);
    lemma_not_annotation(c, "#MAEK PARAGRAF"@);
    lemma_not_annotation(c, "#GIMMEH BOLD"@);
    lemma_not_annotation(c, "#GIMMEH ITALICS"@);
    lemma_not_annotation(c, "#MAEK LIST"@);
    lemma_not_annotation(c, "#NEWLINE"@);
    lemma_not_annotation(c, "#GIMMEH LINX"@);
    lemma_not_annotation(c, "#IHAZ"@);
    lemma_not_annotation(c, "#LEMMESEE"@);
    lemma_not_annotation(c, "#MKAY"@);
    lemma_not_annotation(c, "#OIC"@);
}

proof fn lemma_body_dispatch(st: PState)
    ensures
        st.cur == "#OBTW"@ ==> body_item_p(st) == comment_p(st),
        st.cur == "#MAEK PARAGRAF"@ ==> body_item_p(st) == paragraph_p(st),
        st.cur == "#GIMMEH BOLD"@ ==> body_item_p(st) == bold_p(st),
        st.cur == "#GIMMEH ITALICS"@ ==> body_item_p(st) == italics_p(st),
        st.cur == "#MAEK LIST"@ ==> body_item_p(st) == list_block_p(st),
        st.cur == "#NEWLINE"@ ==> body_item_p(st) == newline_p(st),
        st.cur == "#GIMMEH LINX"@ ==> body_item_p(st) == link_p(st),
        is_text(st.cur) ==> body_item_p(st) == text_p(st),
{
    lemma_tags();
    lemma_text_shape(st.cur);
    if st.cur == "#GIMMEH LINX"@ {
        lemma_differ_at(st.cur, "#GIMMEH BOLD"@, 8);
    }
    if is_text(st.cur) {
        lemma_text_not_tags(st.cur);
    }
}

proof fn lemma_paragraph_dispatch(st: PState)
    ensures
        st.cur == "#OBTW"@ ==> paragraph_item_p(st) == comment_p(st),
        st.cur == "#GIMMEH BOLD"@ ==> paragraph_item_p(st) == bold_p(st),
        st.cur == "#GIMMEH ITALICS"@ ==> paragraph_item_p(st) == italics_p(st),
        st.cur == "#MAEK LIST"@ ==> paragraph_item_p(st) == list_block_p(st),
        st.cur == "#NEWLINE"@ ==> paragraph_item_p(st) == newline_p(st),
        st.cur == "#GIMMEH LINX"@ ==> paragraph_item_p(st) == link_p(st),
        is_text(st.cur) ==> paragraph_item_p(st) == text_p(st),
{
    lemma_tags();
    lemma_text_shape(st.cur);
    if st.cur == "#GIMMEH LINX"@ {
        lemma_differ_at(st.cur, "#GIMMEH BOLD"@, 8);
    }
    if is_text(st.cur) {
        lemma_text_not_tags(st.cur);
    }
}

proof fn lemma_item_dispatch(st: PState)
    ensures
        st.cur == "#OBTW"@ ==> item_piece_p(st) == comment_p(st),
        st.cur == "#GIMMEH BOLD"@ ==> item_piece_p(st) == bold_p(st),
        st.cur == "#GIMMEH ITALICS"@ ==> item_piece_p(st) == italics_p(st),
        st.cur == "#NEWLINE"@ ==> item_piece_p(st) == newline_p(st),
        is_text(st.cur) ==> item_piece_p(st) == text_p(st),
{
    lemma_tags();
    lemma_text_shape(st.cur);
    if is_text(st.cur) {
        lemma_text_not_tags(st.cur);
    }
}

proof fn lemma_entry_dispatch(st: PState)
    ensures
        st.cur == "#OBTW"@ ==> list_entry_p(st) == comment_p(st),
        st.cur == "#NEWLINE"@ ==> list_entry_p(st) == newline_p(st),
{
    lemma_tags();
}

// ---------------------------------------------------------------- laws

/// Bold text emits `<b>`, the whole text, `</b>` and a space, wherever it
/// stands: in the body, in a paragraph or in a list item.
pub proof fn law_bold_wraps_the_whole_text(st: PState, t: Seq<char>, rest: Seq<Seq<char>>)
    requires
        st.tags == standard_tags(),
        st.cur == "#GIMMEH BOLD"@,
        st.toks == rest + seq!["#OIC"@, text_token(t)],
        accepted_tokens(st.tags, rest),
        trimmed_text(t),
    ensures
        body_item_p(st) == Ok::<PState, Seq<char>>(moved_on(st, rest, "<b>"@ + t + "</b>"@, " "@)),
        paragraph_item_p(st) == Ok::<PState, Seq<char>>(moved_on(st, rest, "<b>"@ + t + "</b>"@, " "@)),
        item_piece_p(st) == Ok::<PState, Seq<char>>(moved_on(st, rest, "<b>"@ + t + "</b>"@, " "@)),
{
    lemma_body_dispatch(st);
    lemma_paragraph_dispatch(st);
    lemma_item_dispatch(st);
    lemma_wrapped_rule(st, "#GIMMEH BOLD"@, "bold text"@, "<b>"@, "</b>"@, true, true, t, rest);
}

/// Italic text emits `<i>`, the whole text, `</i>` and a space, wherever it
/// stands: in the body, in a paragraph or in a list item.
pub proof fn law_italics_wraps_the_whole_text(st: PState, t: Seq<char>, rest: Seq<Seq<char>>)
    requires
        st.tags == standard_tags(),
        st.cur == "#GIMMEH ITALICS"@,
        st.toks == rest + seq!["#OIC"@, text_token(t)],
        accepted_tokens(st.tags, rest),
        trimmed_text(t),
    ensures
        body_item_p(st) == Ok::<PState, Seq<char>>(moved_on(st, rest, "<i>"@ + t + "</i>"@, " "@)),
        paragraph_item_p(st) == Ok::<PState, Seq<char>>(moved_on(st, rest, "<i>"@ + t + "</i>"@, " "@)),
        item_piece_p(st) == Ok::<PState, Seq<char>>(moved_on(st, rest, "<i>"@ + t + "</i>"@, " "@)),
{
    lemma_body_dispatch(st);
    lemma_paragraph_dispatch(st);
    lemma_item_dispatch(st);
    lemma_wrapped_rule(st, "#GIMMEH ITALICS"@, "italics text"@, "<i>"@, "</i>"@, true, true, t, rest);
}

/// A link emits an anchor whose address and text are both the whole
/// address, then a space, in the body or in a paragraph.
pub proof fn law_link_uses_the_whole_address(st: PState, t: Seq<char>, rest: Seq<Seq<char>>)
    requires
        st.tags == standard_tags(),
        st.cur == "#GIMMEH LINX"@,
        st.toks == rest + seq!["#OIC"@, text_token(t)],
        accepted_tokens(st.tags, rest),
        trimmed_text(t),
    ensures
        body_item_p(st) == Ok::<PState, Seq<char>>(
            moved_on(st, rest, "<a href=\""@ + t + "\">"@ + t + "</a>"@, " "@),
        ),
        paragraph_item_p(st) == Ok::<PState, Seq<char>>(
            moved_on(st, rest, "<a href=\""@ + t + "\">"@ + t + "</a>"@, " "@),
        ),
{
    lemma_body_dispatch(st);
    lemma_paragraph_dispatch(st);
    lemma_link_rule(st, t, rest);
}

/// A line break emits `<br>` and a line end wherever it stands outside the
/// head: in the body, in a paragraph, in a list item or between list items.
pub proof fn law_line_break_anywhere(st: PState, rest: Seq<Seq<char>>)
    requires
        st.tags == standard_tags(),
        st.cur == "#NEWLINE"@,
        st.toks == rest,
        accepted_tokens(st.tags, rest),
    ensures
        body_item_p(st) == Ok::<PState, Seq<char>>(moved_on(st, rest, "<br>\n"@, Seq::empty())),
        paragraph_item_p(st) == Ok::<PState, Seq<char>>(moved_on(st, rest, "<br>\n"@, Seq::empty())),
        item_piece_p(st) == Ok::<PState, Seq<char>>(moved_on(st, rest, "<br>\n"@, Seq::empty())),
        list_entry_p(st) == Ok::<PState, Seq<char>>(moved_on(st, rest, "<br>\n"@, Seq::empty())),
{
    lemma_body_dispatch(st);
    lemma_paragraph_dispatch(st);
    lemma_item_dispatch(st);
    lemma_entry_dispatch(st);
    lemma_newline_rule(st, rest);
}

/// A text emits itself and a space, wherever it stands: in the body, in a
/// paragraph or in a list item.
pub proof fn law_text_emits_itself(st: PState, t: Seq<char>, rest: Seq<Seq<char>>)
    requires
        st.cur == text_token(t),
        st.toks == rest,
        accepted_tokens(st.tags, rest),
        trimmed_text(t),
    ensures
        body_item_p(st) == Ok::<PState, Seq<char>>(moved_on(st, rest, t, " "@)),
        paragraph_item_p(st) == Ok::<PState, Seq<char>>(moved_on(st, rest, t, " "@)),
        item_piece_p(st) == Ok::<PState, Seq<char>>(moved_on(st, rest, t, " "@)),
{
    lemma_text_value_of_token(t);
    lemma_body_dispatch(st);
    lemma_paragraph_dispatch(st);
    lemma_item_dispatch(st);
    lemma_text_rule(st, t, rest);
}

/// A comment emits an HTML comment that holds its whole text, wherever it
/// stands: in the body, in a paragraph, in a list item or between list items.
pub proof fn law_comment_emits_its_text(st: PState, t: Seq<char>, rest: Seq<Seq<char>>)
    requires
        st.tags == standard_tags(),
        st.cur == "#OBTW"@,
        st.toks == rest + seq!["#TLDR"@, text_token(t)],
        accepted_tokens(st.tags, rest),
        trimmed_text(t),
    ensures
        body_item_p(st) == Ok::<PState, Seq<char>>(moved_on(st, rest, "<!-- "@ + t + " -->\n"@, Seq::empty())),
        paragraph_item_p(st) == Ok::<PState, Seq<char>>(
            moved_on(st, rest, "<!-- "@ + t + " -->\n"@, Seq::empty()),
        ),
        item_piece_p(st) == Ok::<PState, Seq<char>>(moved_on(st, rest, "<!-- "@ + t + " -->\n"@, Seq::empty())),
        list_entry_p(st) == Ok::<PState, Seq<char>>(moved_on(st, rest, "<!-- "@ + t + " -->\n"@, Seq::empty())),
{
    lemma_body_dispatch(st);
    lemma_paragraph_dispatch(st);
    lemma_item_dispatch(st);
    lemma_entry_dispatch(st);
    lemma_comment_rule(st, t, rest);
}

proof fn lemma_paragraph_rule(st: PState, t: Seq<char>, rest: Seq<Seq<char>>)
    requires
        st.tags == standard_tags(),
        st.scopes.len() > 0,
        st.cur == "#MAEK PARAGRAF"@,
        st.toks == rest + seq!["#MKAY"@, text_token(t)],
        accepted_tokens(st.tags, rest),
        trimmed_text(t),
    ensures
        paragraph_p(st) == Ok::<PState, Seq<char>>(
            moved_on(st, rest, "<p>"@ + t + " "@ + "</p>\n"@, Seq::empty()),
        ),
{
    lemma_tags();
    lemma_known(st.tags);
    lemma_text_value_of_token(t);
    lemma_text_not_tags(text_token(t));
    let r1 = rest.push("#MKAY"@);
    assert(st.toks =~= r1.push(text_token(t)));
    lemma_move_onto(st, r1, text_token(t));
    let sc = st.scopes.push(Map::empty());
    let s2 = PState { out: st.out + "<p>"@, scopes: sc, toks: r1, cur: text_token(t), ..st };
    lemma_paragraph_dispatch(s2);
    assert(accepted_tokens(s2.tags, r1)) by {
        assert forall|k: int| 0 <= k < r1.len() implies #[trigger] recognized(s2.tags, r1[k]) && r1[k].len() > 0 by {
            if k < rest.len() {
                assert(r1[k] == rest[k]);
            }
        }
    }
    lemma_text_rule(s2, t, r1);
    let s3 = moved_on(s2, r1, t, " "@);
    assert(r1.drop_last() =~= rest);
    assert(s3.cur == "#MKAY"@);
    assert(paragraph_items_p(s3) == Ok::<PState, Seq<char>>(s3));
    assert(paragraph_items_p(s2) == Ok::<PState, Seq<char>>(s3));
    lemma_move(s3, rest);
    let s4 = moved_on(s3, rest, Seq::empty(), Seq::empty());
    assert(sc.drop_last() =~= st.scopes);
    assert(s4.out + "</p>\n"@ =~= st.out + ("<p>"@ + t + " "@ + "</p>\n"@) + Seq::<char>::empty());
}

/// A paragraph of one text emits `<p>`, the text and a space, `</p>` and a
/// line end, in the body; the scopes are as before.
pub proof fn law_paragraph_emits_its_text(st: PState, t: Seq<char>, rest: Seq<Seq<char>>)
    requires
        st.tags == standard_tags(),
        st.scopes.len() > 0,
        st.cur == "#MAEK PARAGRAF"@,
        st.toks == rest + seq!["#MKAY"@, text_token(t)],
        accepted_tokens(st.tags, rest),
        trimmed_text(t),
    ensures
        body_item_p(st) == Ok::<PState, Seq<char>>(
            moved_on(st, rest, "<p>"@ + t + " "@ + "</p>\n"@, Seq::empty()),
        ),
{
    lemma_body_dispatch(st);
    lemma_paragraph_rule(st, t, rest);
}

proof fn lemma_accepted_push(tags: Seq<Seq<char>>, rest: Seq<Seq<char>>, tok: Seq<char>)
    requires
        accepted_tokens(tags, rest),
        recognized(tags, tok),
        tok.len() > 0,
    ensures
        accepted_tokens(tags, rest.push(tok)),
{
    let r = rest.push(tok);
    assert forall|k: int| 0 <= k < r.len() implies #[trigger] recognized(tags, r[k]) && r[k].len() > 0 by {
        if k < rest.len() {
            assert(r[k] == rest[k]);
        }
    }
}

proof fn lemma_item_rule(st: PState, t: Seq<char>, rest: Seq<Seq<char>>)
    requires
        st.tags == standard_tags(),
        st.cur == "#GIMMEH ITEM"@,
        st.toks == rest + seq!["#OIC"@, text_token(t)],
        accepted_tokens(st.tags, rest),
        trimmed_text(t),
    ensures
        item_p(st) == Ok::<PState, Seq<char>>(moved_on(st, rest, "<li>"@ + t + " "@ + "</li>\n"@, Seq::empty())),
{
    lemma_tags();
    lemma_known(st.tags);
    lemma_text_value_of_token(t);
    lemma_text_not_tags(text_token(t));
    let r1 = rest.push("#OIC"@);
    assert(st.toks =~= r1.push(text_token(t)));
    lemma_move_onto(st, r1, text_token(t));
    let s2 = PState { out: st.out + "<li>"@, toks: r1, cur: text_token(t), ..st };
    lemma_item_dispatch(s2);
    lemma_accepted_push(st.tags, rest, "#OIC"@);
    lemma_text_rule(s2, t, r1);
    let s3 = moved_on(s2, r1, t, " "@);
    assert(r1.drop_last() =~= rest);
    assert(s3.cur == "#OIC"@);
    assert(item_pieces_p(s3) == Ok::<PState, Seq<char>>(s3));
    assert(item_pieces_p(s2) == Ok::<PState, Seq<char>>(s3));
    lemma_move(s3, rest);
    let s4 = moved_on(s3, rest, Seq::empty(), Seq::empty());
    assert(s4.out + "</li>\n"@ =~= st.out + ("<li>"@ + t + " "@ + "</li>\n"@) + Seq::<char>::empty());
}

proof fn lemma_list_rule(st: PState, t: Seq<char>, rest: Seq<Seq<char>>)
    requires
        st.tags == standard_tags(),
        st.cur == "#MAEK LIST"@,
        st.toks == rest + seq!["#MKAY"@, "#OIC"@, text_token(t), "#GIMMEH ITEM"@],
        accepted_tokens(st.tags, rest),
        trimmed_text(t),
    ensures
        list_block_p(st) == Ok::<PState, Seq<char>>(
            moved_on(st, rest, "<ul>\n"@ + ("<li>"@ + t + " "@ + "</li>\n"@) + "</ul>\n"@, Seq::empty()),
        ),
{
    lemma_tags();
    lemma_known(st.tags);
    let r0 = rest.push("#MKAY"@);
    let r3 = r0 + seq!["#OIC"@, text_token(t)];
    assert(st.toks =~= r3.push("#GIMMEH ITEM"@));
    lemma_move_onto(st, r3, "#GIMMEH ITEM"@);
    let s2 = PState { out: st.out + "<ul>\n"@, toks: r3, cur: "#GIMMEH ITEM"@, ..st };
    lemma_accepted_push(st.tags, rest, "#MKAY"@);
    lemma_item_rule(s2, t, r0);
    let h = "<li>"@ + t + " "@ + "</li>\n"@;
    let s3 = moved_on(s2, r0, h, Seq::empty());
    assert(r0.drop_last() =~= rest);
    assert(s3.cur == "#MKAY"@);
    assert(!eq_ic("#MKAY"@, "#OBTW"@)) by {
        lemma_differ_at("#MKAY"@, "#OBTW"@, 1);
    }
    assert(list_items_p(s3) == Ok::<PState, Seq<char>>(s3));
    assert(list_items_p(s2) == Ok::<PState, Seq<char>>(s3));
    lemma_move(s3, rest);
    let s4 = moved_on(s3, rest, Seq::empty(), Seq::empty());
    assert(s4.out + "</ul>\n"@ =~= st.out + ("<ul>\n"@ + h + "</ul>\n"@) + Seq::<char>::empty());
}

/// A list of one item emits `<ul>` and a line end, `<li>` with the item's
/// text and a space, `</li>` and a line end, `</ul>` and a line end, in the
/// body or in a paragraph.
pub proof fn law_list_emits_its_item(st: PState, t: Seq<char>, rest: Seq<Seq<char>>)
    requires
        st.tags == standard_tags(),
        st.cur == "#MAEK LIST"@,
        st.toks == rest + seq!["#MKAY"@, "#OIC"@, text_token(t), "#GIMMEH ITEM"@],
        accepted_tokens(st.tags, rest),
        trimmed_text(t),
    ensures
        body_item_p(st) == Ok::<PState, Seq<char>>(
            moved_on(st, rest, "<ul>\n"@ + ("<li>"@ + t + " "@ + "</li>\n"@) + "</ul>\n"@, Seq::empty()),
        ),
        paragraph_item_p(st) == Ok::<PState, Seq<char>>(
            moved_on(st, rest, "<ul>\n"@ + ("<li>"@ + t + " "@ + "</li>\n"@) + "</ul>\n"@, Seq::empty()),
        ),
{
    lemma_body_dispatch(st);
    lemma_paragraph_dispatch(st);
    lemma_list_rule(st, t, rest);
}

/// The head emits `<head>` and a line end, the title with its whole text
/// between `<title>` and `</title>` and a line end, and `</head>` and a line
/// end, where it opens a document.
pub proof fn law_head_emits_the_title(st: PState, t: Seq<char>, rest: Seq<Seq<char>>)
    requires
        st.tags == standard_tags(),
        st.cur == "#MAEK HEAD"@,
        st.toks == rest + seq!["#MKAY"@, "#OIC"@, text_token(t), "#GIMMEH TITLE"@],
        accepted_tokens(st.tags, rest),
        trimmed_text(t),
    ensures
        prologue_p(st) == Ok::<PState, Seq<char>>(
            moved_on(st, rest, "<head>\n"@ + ("<title>"@ + t + "</title>\n"@) + "</head>\n"@, Seq::empty()),
        ),
{
    lemma_tags();
    lemma_known(st.tags);
    let r0 = rest.push("#MKAY"@);
    let r3 = r0 + seq!["#OIC"@, text_token(t)];
    assert(st.toks =~= r3.push("#GIMMEH TITLE"@));
    lemma_move_onto(st, r3, "#GIMMEH TITLE"@);
    let s2 = PState { out: st.out + "<head>\n"@, toks: r3, cur: "#GIMMEH TITLE"@, ..st };
    lemma_accepted_push(st.tags, rest, "#MKAY"@);
    lemma_wrapped_rule(s2, "#GIMMEH TITLE"@, "title text"@, "<title>"@, "</title>\n"@, false, false, t, r0);
    let h = "<title>"@ + t + "</title>\n"@;
    let s3 = moved_on(s2, r0, h, Seq::empty());
    assert(title_p(s2) == Ok::<PState, Seq<char>>(s3));
    assert(r0.drop_last() =~= rest);
    assert(s3.cur == "#MKAY"@);
    let s4 = PState { out: s3.out + "</head>\n"@, ..s3 };
    lemma_move(s4, rest);
    assert(s4.out + Seq::<char>::empty() + Seq::<char>::empty() =~= st.out + ("<head>\n"@ + h + "</head>\n"@)
        + Seq::<char>::empty());
    assert(head_p(st) == Ok::<PState, Seq<char>>(
        moved_on(st, rest, "<head>\n"@ + h + "</head>\n"@, Seq::empty()),
    ));
}

proof fn lemma_wrapped_var_rule(
    st: PState,
    open: Seq<char>,
    what: Seq<char>,
    before: Seq<char>,
    after: Seq<char>,
    name: Seq<char>,
    v: Seq<char>,
    rest: Seq<Seq<char>>,
)
    requires
        st.tags == standard_tags(),
        st.cur == open,
        st.toks == rest + seq!["#OIC"@, "#OIC"@, text_token(name), "#LEMMESEE"@],
        accepted_tokens(st.tags, rest),
        trimmed_text(name),
        !has_ws(name),
        lookup_scopes(st.scopes, name) == Some(v),
        before.len() > 0,
    ensures
        wrapped_text_p(st, open, what, before, after, true, true) == Ok::<PState, Seq<char>>(
            moved_on(st, rest, before + v + after, " "@),
        ),
{
    lemma_tags();
    lemma_known(st.tags);
    lemma_text_value_of_token(name);
    assert(st.tags[8] == "#LEMMESEE"@);
    let r0 = rest.push("#OIC"@);
    let r1 = r0.push("#OIC"@);
    let r2 = r1.push(text_token(name));
    assert(st.toks =~= r2.push("#LEMMESEE"@));
    lemma_move_onto(st, r2, "#LEMMESEE"@);
    let s1 = PState { toks: r2, cur: "#LEMMESEE"@, ..st };
    lemma_move_onto(s1, r1, text_token(name));
    let s2 = PState { toks: r1, cur: text_token(name), ..st };
    lemma_move_onto(s2, r0, "#OIC"@);
    let s3 = PState { toks: r0, cur: "#OIC"@, ..st };
    lemma_move_onto(s3, rest, "#OIC"@);
    let h = before + v + after;
    let s5 = PState { out: st.out + h + " "@, toks: rest, cur: "#OIC"@, ..st };
    lemma_move(s5, rest);
    assert(s5.out + Seq::<char>::empty() + Seq::<char>::empty() =~= st.out + h + " "@);
    lemma_text_shape("#LEMMESEE"@);
    assert(!is_text(s1.cur));
    assert(is_text(s2.cur));
    let s4 = PState { toks: rest, cur: "#OIC"@, ..st };
    assert(crate::compiler::variable_value_p(s1) == Ok::<(PState, Seq<char>), Seq<char>>((s4, v)));
    assert(crate::compiler::inline_text_p(s1, what, true) == Ok::<(PState, Seq<char>), Seq<char>>((s4, v)));
    assert(h.len() > 0);
}

/// Bold text may be the value of a variable: `#LEMMESEE name #OIC` inside
/// `#GIMMEH BOLD … #OIC` emits `<b>`, the value, `</b>` and a space,
/// wherever the bold text stands.
pub proof fn law_bold_of_a_variable(st: PState, name: Seq<char>, v: Seq<char>, rest: Seq<Seq<char>>)
    requires
        st.tags == standard_tags(),
        st.cur == "#GIMMEH BOLD"@,
        st.toks == rest + seq!["#OIC"@, "#OIC"@, text_token(name), "#LEMMESEE"@],
        accepted_tokens(st.tags, rest),
        trimmed_text(name),
        !has_ws(name),
        lookup_scopes(st.scopes, name) == Some(v),
    ensures
        body_item_p(st) == Ok::<PState, Seq<char>>(moved_on(st, rest, "<b>"@ + v + "</b>"@, " "@)),
        paragraph_item_p(st) == Ok::<PState, Seq<char>>(moved_on(st, rest, "<b>"@ + v + "</b>"@, " "@)),
        item_piece_p(st) == Ok::<PState, Seq<char>>(moved_on(st, rest, "<b>"@ + v + "</b>"@, " "@)),
{
    lemma_body_dispatch(st);
    lemma_paragraph_dispatch(st);
    lemma_item_dispatch(st);
    reveal_strlit("<b>");
    lemma_wrapped_var_rule(st, "#GIMMEH BOLD"@, "bold text"@, "<b>"@, "</b>"@, name, v, rest);
}

/// A paragraph may not be empty: `#MAEK PARAGRAF #MKAY` is the error that
/// says so.
pub proof fn law_empty_paragraph_is_refused(st: PState, rest: Seq<Seq<char>>)
    requires
        st.tags == standard_tags(),
        st.cur == "#MAEK PARAGRAF"@,
        st.toks == rest.push("#MKAY"@),
    ensures
        paragraph_p(st) == Err::<PState, Seq<char>>("Syntax error: empty paragraph is not allowed."@),
        body_item_p(st) == Err::<PState, Seq<char>>("Syntax error: empty paragraph is not allowed."@),
{
    lemma_tags();
    lemma_known(st.tags);
    lemma_move_onto(st, rest, "#MKAY"@);
    lemma_body_dispatch(st);
}

/// A list must open with an item: `#MAEK LIST` followed by anything else is
/// the error that says so.
pub proof fn law_list_opens_with_an_item(st: PState, rest: Seq<Seq<char>>, tok: Seq<char>)
    requires
        st.tags == standard_tags(),
        st.cur == "#MAEK LIST"@,
        st.toks == rest.push(tok),
        recognized(st.tags, tok),
        tok.len() > 0,
        !eq_ic(tok, "#GIMMEH ITEM"@),
    ensures
        list_block_p(st) == Err::<PState, Seq<char>>(
            "Syntax error: list must contain at least one #GIMMEH ITEM."@,
        ),
{
    lemma_move_onto(st, rest, tok);
}

/// A list item may not be empty: `#GIMMEH ITEM #OIC` is the error that says
/// so.
pub proof fn law_empty_item_is_refused(st: PState, rest: Seq<Seq<char>>)
    requires
        st.tags == standard_tags(),
        st.cur == "#GIMMEH ITEM"@,
        st.toks == rest.push("#OIC"@),
    ensures
        item_p(st) == Err::<PState, Seq<char>>("Syntax error: empty list item is not allowed."@),
{
    lemma_tags();
    lemma_known(st.tags);
    lemma_move_onto(st, rest, "#OIC"@);
}

/// A comment that spans lines keeps every one of them: the pieces of its
/// text are all the lines in between, trimmed, in order, with the empty ones
/// left out.
pub proof fn law_comment_keeps_every_line(lines: Seq<Seq<char>>, f: int, t: int)
    requires
        0 <= f <= t <= lines.len(),
    ensures
        comment_parts(lines, f, t) == lines.subrange(f, t).map_values(|l: Seq<char>| trim(l)).filter(
            |l: Seq<char>| l.len() > 0,
        ),
    decreases t - f,
{
    let pred = |l: Seq<char>| l.len() > 0;
    let m = lines.subrange(f, t).map_values(|l: Seq<char>| trim(l));
    if f == t {
        assert(m =~= Seq::<Seq<char>>::empty());
        reveal_with_fuel(Seq::filter, 1);
    } else {
        law_comment_keeps_every_line(lines, f + 1, t);
        let head = seq![trim(lines[f])];
        let tail = lines.subrange(f + 1, t).map_values(|l: Seq<char>| trim(l));
        assert(m =~= head + tail);
        Seq::filter_distributes_over_add(head, tail, pred);
        reveal_with_fuel(Seq::filter, 2);
        assert(head.drop_last() =~= Seq::<Seq<char>>::empty());
        assert(head.filter(pred) =~= nonempty(trim(lines[f])));
    }
}

} // verus!
