//! The parser and HTML generator: a recursive-descent parser over the tokens
//! of the lexer, with nested variable scopes.
use vstd::prelude::*;
use vstd::string::StringExecFns;
use vstd::hash_map::StringHashMap;
use crate::laws::{law_every_source_lexes, law_standard_tags_not_empty};
use crate::lexer::{is_text, lex_source, recognized, standard_tags, Lexed, SimpleLexicalAnalyzer};
use crate::text::{
    contains_ws, is_ws, chars_of, eq_ic, str_eq, eq_ic_str, lemma_views_push, matches_exact, replace_all, replace_exec,
    string_of, trim, trim_bounds, views,
};

verus! {

// ---------------------------------------------------------------- model

/// The state of the parser: the tokens still to read (the next one last),
/// the current token, the variable scopes (innermost last), the HTML
/// produced so far, and the annotations that the lexer recognises.
#[verifier::ext_equal]
pub struct PState {
    pub toks: Seq<Seq<char>>,
    pub cur: Seq<char>,
    pub scopes: Seq<Map<Seq<char>, Seq<char>>>,
    pub out: Seq<char>,
    pub tags: Seq<Seq<char>>,
}

/// How many tokens are left, the current one included.
pub open spec fn measure(st: PState) -> nat {
    st.toks.len() + if st.cur.len() > 0 {
        1nat
    } else {
        0nat
    }
}

/// The trimmed text of a text token; nothing for another token.
pub open spec fn text_value(s: Seq<char>) -> Seq<char> {
    if is_text(s) {
        trim(s.skip(5))
    } else {
        Seq::empty()
    }
}

pub open spec fn unrecognized_msg(t: Seq<char>) -> Seq<char> {
    "Lexical error: '"@ + t + "' is not a recognized token."@
}

/// The error for a token that is not what the grammar asks for there.
pub open spec fn found_msg(what: Seq<char>, cur: Seq<char>) -> Seq<char> {
    "Syntax error: expected "@ + what + ", but found '"@ + cur + "'."@
}

/// `what`, quoted.
pub open spec fn quoted(what: Seq<char>) -> Seq<char> {
    "'"@ + what + "'"@
}

pub open spec fn unexpected_msg(cur: Seq<char>) -> Seq<char> {
    "Syntax error: unexpected token '"@ + cur + "'."@
}

pub open spec fn invalid_paragraph_item_msg(cur: Seq<char>) -> Seq<char> {
    "Syntax error: invalid paragraph item '"@ + cur + "'."@
}

pub open spec fn invalid_item_msg(cur: Seq<char>) -> Seq<char> {
    "Syntax error: invalid list item content '"@ + cur + "'."@
}

pub open spec fn extra_tokens_msg(cur: Seq<char>) -> Seq<char> {
    "Syntax error: extra tokens found after #KBYE: '"@ + cur + "'."@
}

pub open spec fn undefined_msg(name: Seq<char>) -> Seq<char> {
    "Static semantic error: variable '"@ + name + "' was used before it was defined."@
}

/// The value of `name` in the innermost scope that defines it.
pub open spec fn lookup_scopes(scopes: Seq<Map<Seq<char>, Seq<char>>>, name: Seq<char>) -> Option<Seq<char>>
    decreases scopes.len(),
{
    if scopes.len() == 0 {
        None
    } else if scopes.last().contains_key(name) {
        Some(scopes.last()[name])
    } else {
        lookup_scopes(scopes.drop_last(), name)
    }
}

/// Opens a new, empty, innermost scope.
pub open spec fn enter_scope_p(st: PState) -> PState {
    PState { scopes: st.scopes.push(Map::empty()), ..st }
}

/// Closes the innermost scope, unless it is the only one.
pub open spec fn exit_scope_p(st: PState) -> PState {
    if st.scopes.len() > 1 {
        PState { scopes: st.scopes.drop_last(), ..st }
    } else {
        st
    }
}

/// Binds `name` to `value` in the innermost scope.
pub open spec fn define_p(st: PState, name: Seq<char>, value: Seq<char>) -> PState {
    if st.scopes.len() > 0 {
        PState {
            scopes: st.scopes.update(st.scopes.len() - 1, st.scopes.last().insert(name, value)),
            ..st
        }
    } else {
        st
    }
}

/// Appends `s` to the output.
pub open spec fn emit_raw_p(st: PState, s: Seq<char>) -> PState {
    PState { out: st.out + s, ..st }
}

/// Appends `s` and a space to the output, unless `s` is empty.
pub open spec fn emit_piece_p(st: PState, s: Seq<char>) -> PState {
    if s.len() > 0 {
        PState { out: st.out + s + " "@, ..st }
    } else {
        st
    }
}

/// Moves to the next token: it becomes the current token (nothing once the
/// tokens are exhausted); a token that is neither a known annotation nor a
/// text token is an error.
pub open spec fn next_token_p(st: PState) -> Result<PState, Seq<char>> {
    let cand = if st.toks.len() > 0 {
        st.toks.last()
    } else {
        Seq::empty()
    };
    let rest = if st.toks.len() > 0 {
        st.toks.drop_last()
    } else {
        st.toks
    };
    if cand.len() == 0 {
        Ok(PState { toks: rest, cur: Seq::empty(), ..st })
    } else if recognized(st.tags, cand) {
        Ok(PState { toks: rest, cur: cand, ..st })
    } else {
        Err(unrecognized_msg(cand))
    }
}

/// Requires the current token to be `e`, ignoring ASCII case, and moves past it.
pub open spec fn expect_p(st: PState, e: Seq<char>) -> Result<PState, Seq<char>> {
    if eq_ic(st.cur, e) {
        next_token_p(st)
    } else {
        Err(found_msg(quoted(e), st.cur))
    }
}

/// A piece of text: emitted, followed by a space.
pub open spec fn text_p(st: PState) -> Result<PState, Seq<char>> {
    if is_text(st.cur) {
        next_token_p(emit_piece_p(st, text_value(st.cur)))
    } else {
        Err(found_msg("text"@, st.cur))
    }
}

/// `#LEMMESEE` name `#OIC`: the value of the variable, whose name is a
/// single word, and the state after `#OIC`; nothing is emitted.
pub open spec fn variable_value_p(st: PState) -> Result<(PState, Seq<char>), Seq<char>> {
    match expect_p(st, "#LEMMESEE"@) {
        Err(e) => Err(e),
        Ok(s1) => if !is_text(s1.cur) {
            Err(found_msg("variable name after #LEMMESEE"@, s1.cur))
        } else {
            let name = text_value(s1.cur);
            if has_ws(name) {
                Err(found_msg("a single-word variable name after #LEMMESEE"@, s1.cur))
            } else {
                match lookup_scopes(s1.scopes, name) {
                    None => Err(undefined_msg(name)),
                    Some(v) => match next_token_p(s1) {
                        Err(e) => Err(e),
                        Ok(s2) => match expect_p(s2, "#OIC"@) {
                            Err(e) => Err(e),
                            Ok(s3) => Ok((s3, v)),
                        },
                    },
                }
            }
        },
    }
}

/// The text inside an annotation: a text token, or, where `vars` allows it,
/// the value of a variable use `#LEMMESEE name #OIC`; anything else is the
/// error `found_msg(what, ..)`. It gives the state after the text, and the text.
pub open spec fn inline_text_p(st: PState, what: Seq<char>, vars: bool) -> Result<(PState, Seq<char>), Seq<char>> {
    if is_text(st.cur) {
        match next_token_p(st) {
            Err(e) => Err(e),
            Ok(s1) => Ok((s1, text_value(st.cur))),
        }
    } else if vars && eq_ic(st.cur, "#LEMMESEE"@) {
        variable_value_p(st)
    } else {
        Err(found_msg(what, st.cur))
    }
}

/// An annotation that wraps one piece of text, up to `#OIC`: after `open`
/// comes the text (see `inline_text_p`), and `before + text + after` is
/// emitted, as a piece (`piece`) or raw.
pub open spec fn wrapped_text_p(
    st: PState,
    open: Seq<char>,
    what: Seq<char>,
    before: Seq<char>,
    after: Seq<char>,
    piece: bool,
    vars: bool,
) -> Result<PState, Seq<char>> {
    match expect_p(st, open) {
        Err(e) => Err(e),
        Ok(s1) => match inline_text_p(s1, what, vars) {
            Err(e) => Err(e),
            Ok((s2, t)) => {
                let s3 = if piece {
                    emit_piece_p(s2, before + t + after)
                } else {
                    emit_raw_p(s2, before + t + after)
                };
                expect_p(s3, "#OIC"@)
            },
        },
    }
}

/// `#OBTW` [text] `#TLDR`: an HTML comment.
pub open spec fn comment_p(st: PState) -> Result<PState, Seq<char>> {
    match expect_p(st, "#OBTW"@) {
        Err(e) => Err(e),
        Ok(s1) => {
            let t = text_value(s1.cur);
            let s2 = if is_text(s1.cur) {
                next_token_p(s1)
            } else {
                Ok(s1)
            };
            match s2 {
                Err(e) => Err(e),
                Ok(s2) => match expect_p(s2, "#TLDR"@) {
                    Err(e) => Err(e),
                    Ok(s3) => Ok(emit_raw_p(s3, "<!-- "@ + t + " -->\n"@)),
                },
            }
        },
    }
}

/// `#GIMMEH TITLE` text `#OIC`: plain text only.
pub open spec fn title_p(st: PState) -> Result<PState, Seq<char>> {
    wrapped_text_p(st, "#GIMMEH TITLE"@, "title text"@, "<title>"@, "</title>\n"@, false, false)
}

/// `#MAEK HEAD` title `#MKAY`.
pub open spec fn head_p(st: PState) -> Result<PState, Seq<char>> {
    match expect_p(st, "#MAEK HEAD"@) {
        Err(e) => Err(e),
        Ok(s1) => match title_p(emit_raw_p(s1, "<head>\n"@)) {
            Err(e) => Err(e),
            Ok(s2) => expect_p(emit_raw_p(s2, "</head>\n"@), "#MKAY"@),
        },
    }
}

/// `#GIMMEH BOLD` text `#OIC`, where the text may be a variable use.
pub open spec fn bold_p(st: PState) -> Result<PState, Seq<char>> {
    wrapped_text_p(st, "#GIMMEH BOLD"@, "bold text"@, "<b>"@, "</b>"@, true, true)
}

/// `#GIMMEH ITALICS` text `#OIC`, where the text may be a variable use.
pub open spec fn italics_p(st: PState) -> Result<PState, Seq<char>> {
    wrapped_text_p(st, "#GIMMEH ITALICS"@, "italics text"@, "<i>"@, "</i>"@, true, true)
}

/// `#NEWLINE`.
pub open spec fn newline_p(st: PState) -> Result<PState, Seq<char>> {
    match expect_p(st, "#NEWLINE"@) {
        Err(e) => Err(e),
        Ok(s1) => Ok(emit_raw_p(s1, "<br>\n"@)),
    }
}

/// The HTML of a link to `a`.
pub open spec fn link_html(a: Seq<char>) -> Seq<char> {
    "<a href=\""@ + a + "\">"@ + a + "</a>"@
}

/// `#GIMMEH LINX` address `#OIC`, where the address may be a variable use.
pub open spec fn link_p(st: PState) -> Result<PState, Seq<char>> {
    match expect_p(st, "#GIMMEH LINX"@) {
        Err(e) => Err(e),
        Ok(s1) => match inline_text_p(s1, "address text after #GIMMEH LINX"@, true) {
            Err(e) => Err(e),
            Ok((s2, a)) => expect_p(emit_piece_p(s2, link_html(a)), "#OIC"@),
        },
    }
}

/// `#IHAZ` name `#ITIZ` value `#MKAY`: binds the name, a single word, in the
/// innermost scope.
pub open spec fn variable_definition_p(st: PState) -> Result<PState, Seq<char>> {
    match expect_p(st, "#IHAZ"@) {
        Err(e) => Err(e),
        Ok(s1) => if !is_text(s1.cur) {
            Err(found_msg("variable name after #IHAZ"@, s1.cur))
        } else if has_ws(text_value(s1.cur)) {
            Err(found_msg("a single-word variable name after #IHAZ"@, s1.cur))
        } else {
            let name = text_value(s1.cur);
            match next_token_p(s1) {
                Err(e) => Err(e),
                Ok(s2) => match expect_p(s2, "#ITIZ"@) {
                    Err(e) => Err(e),
                    Ok(s3) => if !is_text(s3.cur) {
                        Err(found_msg("variable value after #ITIZ"@, s3.cur))
                    } else {
                        let value = text_value(s3.cur);
                        match next_token_p(s3) {
                            Err(e) => Err(e),
                            Ok(s4) => expect_p(define_p(s4, name, value), "#MKAY"@),
                        }
                    },
                },
            }
        },
    }
}

/// The sequence holds a whitespace character.
pub open spec fn has_ws(s: Seq<char>) -> bool {
    exists|i: int| 0 <= i < s.len() && is_ws(#[trigger] s[i])
}

/// `#LEMMESEE` name `#OIC`: emits the value of the variable (see
/// `variable_value_p`).
pub open spec fn variable_usage_p(st: PState) -> Result<PState, Seq<char>> {
    match variable_value_p(st) {
        Err(e) => Err(e),
        Ok((s1, v)) => Ok(emit_piece_p(s1, v)),
    }
}

/// What may stand in a list item: text, bold, italics, a variable, a
/// comment, a line break.
pub open spec fn item_piece_p(st: PState) -> Result<PState, Seq<char>> {
    if eq_ic(st.cur, "#OBTW"@) {
        comment_p(st)
    } else if eq_ic(st.cur, "#NEWLINE"@) {
        newline_p(st)
    } else if is_text(st.cur) {
        text_p(st)
    } else if eq_ic(st.cur, "#GIMMEH BOLD"@) {
        bold_p(st)
    } else if eq_ic(st.cur, "#GIMMEH ITALICS"@) {
        italics_p(st)
    } else if eq_ic(st.cur, "#LEMMESEE"@) {
        variable_usage_p(st)
    } else {
        Err(invalid_item_msg(st.cur))
    }
}


/// The pieces of a list item, up to `#OIC` or the end of the tokens.
pub open spec fn item_pieces_p(st: PState) -> Result<PState, Seq<char>>
    decreases measure(st),
{
    if st.cur.len() == 0 || eq_ic(st.cur, "#OIC"@) {
        Ok(st)
    } else {
        match item_piece_p(st) {
            Err(e) => Err(e),
            Ok(s2) => {
                proof {
                    lemma_item_piece(st);
                }
                item_pieces_p(s2)
            },
        }
    }
}

/// `#GIMMEH ITEM` pieces `#OIC`: a list item, which may not be empty.
pub open spec fn item_p(st: PState) -> Result<PState, Seq<char>> {
    match expect_p(st, "#GIMMEH ITEM"@) {
        Err(e) => Err(e),
        Ok(s1) => {
            let s2 = emit_raw_p(s1, "<li>"@);
            if eq_ic(s2.cur, "#OIC"@) {
                Err("Syntax error: empty list item is not allowed."@)
            } else {
                match item_pieces_p(s2) {
                    Err(e) => Err(e),
                    Ok(s3) => match expect_p(s3, "#OIC"@) {
                        Err(e) => Err(e),
                        Ok(s4) => Ok(emit_raw_p(s4, "</li>\n"@)),
                    },
                }
            }
        },
    }
}

/// The current token opens what may stand between the items of a list: an
/// item, a comment or a line break.
pub open spec fn opens_list_entry(cur: Seq<char>) -> bool {
    eq_ic(cur, "#GIMMEH ITEM"@) || eq_ic(cur, "#OBTW"@) || eq_ic(cur, "#NEWLINE"@)
}

/// An item, a comment or a line break in a list.
pub open spec fn list_entry_p(st: PState) -> Result<PState, Seq<char>> {
    if eq_ic(st.cur, "#GIMMEH ITEM"@) {
        item_p(st)
    } else if eq_ic(st.cur, "#OBTW"@) {
        comment_p(st)
    } else {
        newline_p(st)
    }
}

/// The items of a list, with the comments and line breaks between them, as
/// long as the current token opens one.
pub open spec fn list_items_p(st: PState) -> Result<PState, Seq<char>>
    decreases measure(st),
{
    if opens_list_entry(st.cur) {
        match list_entry_p(st) {
            Err(e) => Err(e),
            Ok(s2) => {
                proof {
                    lemma_list_entry(st);
                }
                list_items_p(s2)
            },
        }
    } else {
        Ok(st)
    }
}

/// `#MAEK LIST` items `#MKAY`: a bulleted list that starts with an item;
/// comments and line breaks may stand between the items.
pub open spec fn list_block_p(st: PState) -> Result<PState, Seq<char>> {
    match expect_p(st, "#MAEK LIST"@) {
        Err(e) => Err(e),
        Ok(s1) => {
            let s2 = emit_raw_p(s1, "<ul>\n"@);
            if !eq_ic(s2.cur, "#GIMMEH ITEM"@) {
                Err("Syntax error: list must contain at least one #GIMMEH ITEM."@)
            } else {
                match list_items_p(s2) {
                    Err(e) => Err(e),
                    Ok(s3) => match expect_p(s3, "#MKAY"@) {
                        Err(e) => Err(e),
                        Ok(s4) => Ok(emit_raw_p(s4, "</ul>\n"@)),
                    },
                }
            }
        },
    }
}

/// What may stand in a paragraph: a comment, text, bold, italics, a list,
/// a line break, a link, a variable definition or use.
pub open spec fn paragraph_item_p(st: PState) -> Result<PState, Seq<char>> {
    if eq_ic(st.cur, "#OBTW"@) {
        comment_p(st)
    } else if is_text(st.cur) {
        text_p(st)
    } else if eq_ic(st.cur, "#GIMMEH BOLD"@) {
        bold_p(st)
    } else if eq_ic(st.cur, "#GIMMEH ITALICS"@) {
        italics_p(st)
    } else if eq_ic(st.cur, "#MAEK LIST"@) {
        list_block_p(st)
    } else if eq_ic(st.cur, "#NEWLINE"@) {
        newline_p(st)
    } else if eq_ic(st.cur, "#GIMMEH LINX"@) {
        link_p(st)
    } else if eq_ic(st.cur, "#IHAZ"@) {
        variable_definition_p(st)
    } else if eq_ic(st.cur, "#LEMMESEE"@) {
        variable_usage_p(st)
    } else {
        Err(invalid_paragraph_item_msg(st.cur))
    }
}

/// The items of a paragraph, up to `#MKAY` or the end of the tokens.
pub open spec fn paragraph_items_p(st: PState) -> Result<PState, Seq<char>>
    decreases measure(st),
{
    if st.cur.len() == 0 || eq_ic(st.cur, "#MKAY"@) {
        Ok(st)
    } else {
        match paragraph_item_p(st) {
            Err(e) => Err(e),
            Ok(s2) => {
                proof {
                    lemma_paragraph_item(st);
                }
                paragraph_items_p(s2)
            },
        }
    }
}

/// `#MAEK PARAGRAF` items `#MKAY`: a non-empty paragraph, with a scope of its own.
pub open spec fn paragraph_p(st: PState) -> Result<PState, Seq<char>> {
    match expect_p(st, "#MAEK PARAGRAF"@) {
        Err(e) => Err(e),
        Ok(s1) => {
            let s2 = emit_raw_p(enter_scope_p(s1), "<p>"@);
            if eq_ic(s2.cur, "#MKAY"@) {
                Err("Syntax error: empty paragraph is not allowed."@)
            } else {
                match paragraph_items_p(s2) {
                    Err(e) => Err(e),
                    Ok(s3) => match expect_p(s3, "#MKAY"@) {
                        Err(e) => Err(e),
                        Ok(s4) => Ok(exit_scope_p(emit_raw_p(s4, "</p>\n"@))),
                    },
                }
            }
        },
    }
}

/// What may stand in the body of a document. The head is not among them: it
/// may only come first (see `prologue_p`).
pub open spec fn body_item_p(st: PState) -> Result<PState, Seq<char>> {
    if eq_ic(st.cur, "#OBTW"@) {
        comment_p(st)
    } else if eq_ic(st.cur, "#MAEK PARAGRAF"@) {
        paragraph_p(st)
    } else if eq_ic(st.cur, "#GIMMEH BOLD"@) {
        bold_p(st)
    } else if eq_ic(st.cur, "#GIMMEH ITALICS"@) {
        italics_p(st)
    } else if eq_ic(st.cur, "#MAEK LIST"@) {
        list_block_p(st)
    } else if eq_ic(st.cur, "#NEWLINE"@) {
        newline_p(st)
    } else if eq_ic(st.cur, "#GIMMEH LINX"@) {
        link_p(st)
    } else if eq_ic(st.cur, "#IHAZ"@) {
        variable_definition_p(st)
    } else if eq_ic(st.cur, "#LEMMESEE"@) {
        variable_usage_p(st)
    } else if is_text(st.cur) {
        text_p(st)
    } else {
        Err(unexpected_msg(st.cur))
    }
}

/// The body of a document, up to `#KBYE` or the end of the tokens.
pub open spec fn body_p(st: PState) -> Result<PState, Seq<char>>
    decreases measure(st),
{
    if st.cur.len() == 0 || eq_ic(st.cur, "#KBYE"@) {
        Ok(st)
    } else {
        match body_item_p(st) {
            Err(e) => Err(e),
            Ok(s2) => {
                proof {
                    lemma_body_item(st);
                }
                body_p(s2)
            },
        }
    }
}

/// The comments that open a document.
pub open spec fn leading_comments_p(st: PState) -> Result<PState, Seq<char>>
    decreases measure(st),
{
    if eq_ic(st.cur, "#OBTW"@) {
        match comment_p(st) {
            Err(e) => Err(e),
            Ok(s2) => {
                proof {
                    lemma_comment(st);
                }
                leading_comments_p(s2)
            },
        }
    } else {
        Ok(st)
    }
}

/// What opens a document: comments, then the head, if there is one.
pub open spec fn prologue_p(st: PState) -> Result<PState, Seq<char>> {
    match leading_comments_p(st) {
        Err(e) => Err(e),
        Ok(s1) => if eq_ic(s1.cur, "#MAEK HEAD"@) {
            head_p(s1)
        } else {
            Ok(s1)
        },
    }
}

/// `#HAI` prologue body `#KBYE`, with nothing after: an HTML document.
pub open spec fn program_p(st: PState) -> Result<PState, Seq<char>> {
    if !eq_ic(st.cur, "#HAI"@) {
        Err("Syntax error: program must start with #HAI."@)
    } else {
        match expect_p(emit_raw_p(st, "<html>\n"@), "#HAI"@) {
            Err(e) => Err(e),
            Ok(s0) => match prologue_p(s0) {
                Err(e) => Err(e),
                Ok(s1) => match body_p(s1) {
                    Err(e) => Err(e),
                    Ok(s2) => if !eq_ic(s2.cur, "#KBYE"@) {
                        Err("Syntax error: program must end with #KBYE."@)
                    } else {
                        match expect_p(s2, "#KBYE"@) {
                            Err(e) => Err(e),
                            Ok(s3) => if s3.cur.len() > 0 {
                                Err(extra_tokens_msg(s3.cur))
                            } else {
                                Ok(emit_raw_p(s3, "</html>\n"@))
                            },
                        }
                    },
                },
            },
        }
    }
}

/// The output with the spaces before punctuation and closing tags, and
/// after opening tags, removed.
pub open spec fn cleanup(s: Seq<char>) -> Seq<char> {
    let s1 = replace_all(s, " ."@, "."@);
    let s2 = replace_all(s1, " ,"@, ","@);
    let s3 = replace_all(s2, " !"@, "!"@);
    let s4 = replace_all(s3, " ?"@, "?"@);
    let s5 = replace_all(s4, " :"@, ":"@);
    let s6 = replace_all(s5, " ;"@, ";"@);
    let s7 = replace_all(s6, " </p>"@, "</p>"@);
    let s8 = replace_all(s7, " </li>"@, "</li>"@);
    let s9 = replace_all(s8, "> </"@, "></"@);
    let s10 = replace_all(s9, "<p> "@, "<p>"@);
    replace_all(s10, "<li> "@, "<li>"@)
}

/// A whole parse: the document, then the clean-up of its HTML.
pub open spec fn parse_p(st: PState) -> Result<PState, Seq<char>> {
    match program_p(st) {
        Err(e) => Err(e),
        Ok(s1) => Ok(PState { out: cleanup(s1.out), ..s1 }),
    }
}

// ---------------------------------------------------------------- effects

/// `a` is a prefix of `b`.
pub open spec fn extends<A>(a: Seq<A>, b: Seq<A>) -> bool {
    a.len() <= b.len() && forall|i: int| 0 <= i < a.len() ==> a[i] == #[trigger] b[i]
}

/// What every parsing step keeps: the output only grows, the tokens left are
/// a prefix of those before, the annotations stay.
pub open spec fn frame(st: PState, s2: PState) -> bool {
    &&& extends(st.out, s2.out)
    &&& extends(s2.toks, st.toks)
    &&& s2.tags == st.tags
}

/// A step that keeps the scopes and the frame.
pub open spec fn keeps_scopes(st: PState, r: Result<PState, Seq<char>>) -> bool {
    r matches Ok(s2) ==> frame(st, s2) && s2.scopes == st.scopes
}

/// A step that keeps the frame, the number of scopes and every scope but
/// the innermost.
pub open spec fn keeps_outer_scopes(st: PState, r: Result<PState, Seq<char>>) -> bool {
    r matches Ok(s2) ==> {
        &&& frame(st, s2)
        &&& s2.scopes.len() == st.scopes.len()
        &&& forall|i: int| 0 <= i < st.scopes.len() - 1 ==> s2.scopes[i] == #[trigger] st.scopes[i]
    }
}

pub proof fn lemma_expect_effects(st: PState, e: Seq<char>)
    ensures
        keeps_scopes(st, expect_p(st, e)),
{
}

pub proof fn lemma_variable_value_effects(st: PState)
    ensures
        variable_value_p(st) matches Ok((s2, _)) ==> frame(st, s2) && s2.scopes == st.scopes,
{
    if let Ok(s1) = expect_p(st, "#LEMMESEE"@) {
        if let Ok(s2) = next_token_p(s1) {
            lemma_expect_effects(s2, "#OIC"@);
        }
    }
}

pub proof fn lemma_inline_text_effects(st: PState, what: Seq<char>, vars: bool)
    ensures
        inline_text_p(st, what, vars) matches Ok((s2, _)) ==> frame(st, s2) && s2.scopes == st.scopes,
{
    lemma_variable_value_effects(st);
}

pub proof fn lemma_wrapped_text_effects(
    st: PState,
    open: Seq<char>,
    what: Seq<char>,
    before: Seq<char>,
    after: Seq<char>,
    piece: bool,
    vars: bool,
)
    ensures
        keeps_scopes(st, wrapped_text_p(st, open, what, before, after, piece, vars)),
{
    if let Ok(s1) = expect_p(st, open) {
        lemma_inline_text_effects(s1, what, vars);
        if let Ok((s2, t)) = inline_text_p(s1, what, vars) {
            let s3 = if piece {
                emit_piece_p(s2, before + t + after)
            } else {
                emit_raw_p(s2, before + t + after)
            };
            lemma_expect_effects(s3, "#OIC"@);
        }
    }
}

pub proof fn lemma_variable_usage_effects(st: PState)
    ensures
        keeps_scopes(st, variable_usage_p(st)),
{
    lemma_variable_value_effects(st);
}

pub proof fn lemma_item_piece_effects(st: PState)
    ensures
        keeps_scopes(st, item_piece_p(st)),
{
    lemma_comment_effects(st);
    lemma_expect_effects(st, "#NEWLINE"@);
    lemma_wrapped_text_effects(st, "#GIMMEH BOLD"@, "bold text"@, "<b>"@, "</b>"@, true, true);
    lemma_wrapped_text_effects(st, "#GIMMEH ITALICS"@, "italics text"@, "<i>"@, "</i>"@, true, true);
    lemma_variable_usage_effects(st);
}

pub proof fn lemma_item_pieces_effects(st: PState)
    ensures
        keeps_scopes(st, item_pieces_p(st)),
    decreases measure(st),
{
    if !(st.cur.len() == 0 || eq_ic(st.cur, "#OIC"@)) {
        lemma_item_piece(st);
        lemma_item_piece_effects(st);
        if let Ok(s2) = item_piece_p(st) {
            lemma_item_pieces_effects(s2);
        }
    }
}

pub proof fn lemma_item_effects(st: PState)
    ensures
        keeps_scopes(st, item_p(st)),
{
    lemma_expect_effects(st, "#GIMMEH ITEM"@);
    if let Ok(s1) = expect_p(st, "#GIMMEH ITEM"@) {
        let s2 = emit_raw_p(s1, "<li>"@);
        lemma_item_pieces_effects(s2);
        if let Ok(s3) = item_pieces_p(s2) {
            lemma_expect_effects(s3, "#OIC"@);
        }
    }
}

pub proof fn lemma_list_items_effects(st: PState)
    ensures
        keeps_scopes(st, list_items_p(st)),
    decreases measure(st),
{
    if opens_list_entry(st.cur) {
        lemma_list_entry(st);
        lemma_item_effects(st);
        lemma_comment_effects(st);
        lemma_expect_effects(st, "#NEWLINE"@);
        if let Ok(s2) = list_entry_p(st) {
            lemma_list_items_effects(s2);
        }
    }
}

pub proof fn lemma_list_block_effects(st: PState)
    ensures
        keeps_scopes(st, list_block_p(st)),
{
    lemma_expect_effects(st, "#MAEK LIST"@);
    if let Ok(s1) = expect_p(st, "#MAEK LIST"@) {
        let s2 = emit_raw_p(s1, "<ul>\n"@);
        lemma_list_items_effects(s2);
        if let Ok(s3) = list_items_p(s2) {
            lemma_expect_effects(s3, "#MKAY"@);
        }
    }
}

pub proof fn lemma_link_effects(st: PState)
    ensures
        keeps_scopes(st, link_p(st)),
{
    if let Ok(s1) = expect_p(st, "#GIMMEH LINX"@) {
        let what = "address text after #GIMMEH LINX"@;
        lemma_inline_text_effects(s1, what, true);
        if let Ok((s2, a)) = inline_text_p(s1, what, true) {
            lemma_expect_effects(emit_piece_p(s2, link_html(a)), "#OIC"@);
        }
    }
}

pub proof fn lemma_variable_definition_effects(st: PState)
    ensures
        keeps_outer_scopes(st, variable_definition_p(st)),
{
    lemma_expect_effects(st, "#IHAZ"@);
    if let Ok(s1) = expect_p(st, "#IHAZ"@) {
        if let Ok(s2) = next_token_p(s1) {
            if let Ok(s3) = expect_p(s2, "#ITIZ"@) {
                if let Ok(s4) = next_token_p(s3) {
                    let name = text_value(s1.cur);
                    let value = text_value(s3.cur);
                    lemma_expect_effects(define_p(s4, name, value), "#MKAY"@);
                }
            }
        }
    }
}

pub proof fn lemma_paragraph_item_effects(st: PState)
    ensures
        keeps_outer_scopes(st, paragraph_item_p(st)),
{
    if eq_ic(st.cur, "#OBTW"@) {
        lemma_comment_effects(st);
    } else if is_text(st.cur) {
    } else if eq_ic(st.cur, "#GIMMEH BOLD"@) {
        lemma_wrapped_text_effects(st, "#GIMMEH BOLD"@, "bold text"@, "<b>"@, "</b>"@, true, true);
    } else if eq_ic(st.cur, "#GIMMEH ITALICS"@) {
        lemma_wrapped_text_effects(st, "#GIMMEH ITALICS"@, "italics text"@, "<i>"@, "</i>"@, true, true);
    } else if eq_ic(st.cur, "#MAEK LIST"@) {
        lemma_list_block_effects(st);
    } else if eq_ic(st.cur, "#NEWLINE"@) {
        lemma_expect_effects(st, "#NEWLINE"@);
    } else if eq_ic(st.cur, "#GIMMEH LINX"@) {
        lemma_link_effects(st);
    } else if eq_ic(st.cur, "#IHAZ"@) {
        lemma_variable_definition_effects(st);
    } else if eq_ic(st.cur, "#LEMMESEE"@) {
        lemma_variable_usage_effects(st);
    }
}

pub proof fn lemma_paragraph_items_effects(st: PState)
    ensures
        keeps_outer_scopes(st, paragraph_items_p(st)),
    decreases measure(st),
{
    if !(st.cur.len() == 0 || eq_ic(st.cur, "#MKAY"@)) {
        lemma_paragraph_item(st);
        lemma_paragraph_item_effects(st);
        if let Ok(s2) = paragraph_item_p(st) {
            lemma_paragraph_items_effects(s2);
        }
    }
}

pub proof fn lemma_paragraph_effects(st: PState)
    requires
        st.scopes.len() > 0,
    ensures
        keeps_scopes(st, paragraph_p(st)),
{
    lemma_expect_effects(st, "#MAEK PARAGRAF"@);
    if let Ok(s1) = expect_p(st, "#MAEK PARAGRAF"@) {
        let s2 = emit_raw_p(enter_scope_p(s1), "<p>"@);
        lemma_paragraph_items_effects(s2);
        if let Ok(s3) = paragraph_items_p(s2) {
            lemma_expect_effects(s3, "#MKAY"@);
            if let Ok(s4) = expect_p(s3, "#MKAY"@) {
                let s5 = exit_scope_p(emit_raw_p(s4, "</p>\n"@));
                assert(s1.scopes == st.scopes);
                assert(s2.scopes == s1.scopes.push(Map::empty()));
                assert(s4.scopes == s3.scopes);
                assert(s3.scopes.len() == st.scopes.len() + 1);
                assert forall|i: int| 0 <= i < st.scopes.len() implies s5.scopes[i] == st.scopes[i] by {
                    assert(s3.scopes[i] == s2.scopes[i]);
                }
                assert(s5.scopes =~= st.scopes);
            }
        }
    }
}

pub proof fn lemma_comment_effects(st: PState)
    ensures
        keeps_scopes(st, comment_p(st)),
{
    lemma_expect_effects(st, "#OBTW"@);
    if let Ok(s1) = expect_p(st, "#OBTW"@) {
        let s2 = if is_text(s1.cur) {
            next_token_p(s1)
        } else {
            Ok(s1)
        };
        if let Ok(s2) = s2 {
            lemma_expect_effects(s2, "#TLDR"@);
        }
    }
}

pub proof fn lemma_head_effects(st: PState)
    ensures
        keeps_scopes(st, head_p(st)),
{
    lemma_expect_effects(st, "#MAEK HEAD"@);
    if let Ok(s1) = expect_p(st, "#MAEK HEAD"@) {
        let s2 = emit_raw_p(s1, "<head>\n"@);
        lemma_wrapped_text_effects(s2, "#GIMMEH TITLE"@, "title text"@, "<title>"@, "</title>\n"@, false, false);
        if let Ok(s3) = title_p(s2) {
            lemma_expect_effects(emit_raw_p(s3, "</head>\n"@), "#MKAY"@);
        }
    }
}

pub proof fn lemma_leading_comments_effects(st: PState)
    ensures
        keeps_scopes(st, leading_comments_p(st)),
    decreases measure(st),
{
    if eq_ic(st.cur, "#OBTW"@) {
        lemma_comment(st);
        lemma_comment_effects(st);
        if let Ok(s2) = comment_p(st) {
            lemma_leading_comments_effects(s2);
        }
    }
}

pub proof fn lemma_prologue_effects(st: PState)
    ensures
        keeps_scopes(st, prologue_p(st)),
{
    lemma_leading_comments_effects(st);
    if let Ok(s1) = leading_comments_p(st) {
        lemma_head_effects(s1);
    }
}

pub proof fn lemma_body_item_effects(st: PState)
    requires
        st.scopes.len() > 0,
    ensures
        keeps_outer_scopes(st, body_item_p(st)),
{
    if eq_ic(st.cur, "#OBTW"@) {
        lemma_comment_effects(st);
    } else if eq_ic(st.cur, "#MAEK PARAGRAF"@) {
        lemma_paragraph_effects(st);
    } else if eq_ic(st.cur, "#GIMMEH BOLD"@) {
        lemma_wrapped_text_effects(st, "#GIMMEH BOLD"@, "bold text"@, "<b>"@, "</b>"@, true, true);
    } else if eq_ic(st.cur, "#GIMMEH ITALICS"@) {
        lemma_wrapped_text_effects(st, "#GIMMEH ITALICS"@, "italics text"@, "<i>"@, "</i>"@, true, true);
    } else if eq_ic(st.cur, "#MAEK LIST"@) {
        lemma_list_block_effects(st);
    } else if eq_ic(st.cur, "#NEWLINE"@) {
    } else if eq_ic(st.cur, "#GIMMEH LINX"@) {
        lemma_link_effects(st);
    } else if eq_ic(st.cur, "#IHAZ"@) {
        lemma_variable_definition_effects(st);
    } else if eq_ic(st.cur, "#LEMMESEE"@) {
        lemma_variable_usage_effects(st);
    }
}

pub proof fn lemma_body_effects(st: PState)
    requires
        st.scopes.len() > 0,
    ensures
        keeps_outer_scopes(st, body_p(st)),
    decreases measure(st),
{
    if !(st.cur.len() == 0 || eq_ic(st.cur, "#KBYE"@)) {
        lemma_body_item(st);
        lemma_body_item_effects(st);
        if let Ok(s2) = body_item_p(st) {
            lemma_body_effects(s2);
        }
    }
}

// ---------------------------------------------------------------- progress

/// The annotations are not empty.
pub proof fn lemma_tag_lengths()
    ensures
        "#OBTW"@.len() > 0,
        "#TLDR"@.len() > 0,
        "#MAEK HEAD"@.len() > 0,
        "#GIMMEH TITLE"@.len() > 0,
        "#MAEK PARAGRAF"@.len() > 0,
        "#GIMMEH BOLD"@.len() > 0,
        "#GIMMEH ITALICS"@.len() > 0,
        "#MAEK LIST"@.len() > 0,
        "#GIMMEH ITEM"@.len() > 0,
        "#NEWLINE"@.len() > 0,
        "#GIMMEH LINX"@.len() > 0,
        "#IHAZ"@.len() > 0,
        "#ITIZ"@.len() > 0,
        "#LEMMESEE"@.len() > 0,
        "#MKAY"@.len() > 0,
        "#OIC"@.len() > 0,
        "#HAI"@.len() > 0,
        "#KBYE"@.len() > 0,
{
    reveal_strlit("#OBTW");
    reveal_strlit("#TLDR");
    reveal_strlit("#MAEK HEAD");
    reveal_strlit("#GIMMEH TITLE");
    reveal_strlit("#MAEK PARAGRAF");
    reveal_strlit("#GIMMEH BOLD");
    reveal_strlit("#GIMMEH ITALICS");
    reveal_strlit("#MAEK LIST");
    reveal_strlit("#GIMMEH ITEM");
    reveal_strlit("#NEWLINE");
    reveal_strlit("#GIMMEH LINX");
    reveal_strlit("#IHAZ");
    reveal_strlit("#ITIZ");
    reveal_strlit("#LEMMESEE");
    reveal_strlit("#MKAY");
    reveal_strlit("#OIC");
    reveal_strlit("#HAI");
    reveal_strlit("#KBYE");
}

/// A step that reads no token beyond the current one.
pub open spec fn no_more(st: PState, r: Result<PState, Seq<char>>) -> bool {
    r matches Ok(s2) ==> measure(s2) <= measure(st)
}

/// A step that reads at least the current token.
pub open spec fn progress(st: PState, r: Result<PState, Seq<char>>) -> bool {
    r matches Ok(s2) ==> measure(s2) < measure(st)
}

pub proof fn lemma_next_token(st: PState)
    ensures
        no_more(st, next_token_p(st)),
        st.cur.len() > 0 ==> progress(st, next_token_p(st)),
{
}

pub proof fn lemma_expect(st: PState, e: Seq<char>)
    requires
        e.len() > 0,
    ensures
        progress(st, expect_p(st, e)),
{
}

pub proof fn lemma_variable_value(st: PState)
    ensures
        variable_value_p(st) matches Ok((s2, _)) ==> measure(s2) < measure(st),
{
    lemma_tag_lengths();
    if let Ok(s1) = expect_p(st, "#LEMMESEE"@) {
        lemma_next_token(s1);
        if let Ok(s2) = next_token_p(s1) {
            lemma_expect(s2, "#OIC"@);
        }
    }
}

pub proof fn lemma_inline_text(st: PState, what: Seq<char>, vars: bool)
    ensures
        inline_text_p(st, what, vars) matches Ok((s2, _)) ==> measure(s2) < measure(st),
{
    lemma_next_token(st);
    lemma_variable_value(st);
}

pub proof fn lemma_wrapped_text(
    st: PState,
    open: Seq<char>,
    what: Seq<char>,
    before: Seq<char>,
    after: Seq<char>,
    piece: bool,
    vars: bool,
)
    requires
        open.len() > 0,
    ensures
        progress(st, wrapped_text_p(st, open, what, before, after, piece, vars)),
{
    lemma_tag_lengths();
    if let Ok(s1) = expect_p(st, open) {
        lemma_inline_text(s1, what, vars);
        if let Ok((s2, t)) = inline_text_p(s1, what, vars) {
            let s3 = if piece {
                emit_piece_p(s2, before + t + after)
            } else {
                emit_raw_p(s2, before + t + after)
            };
            lemma_expect(s3, "#OIC"@);
        }
    }
}

pub proof fn lemma_text(st: PState)
    ensures
        progress(st, text_p(st)),
{
    lemma_next_token(emit_piece_p(st, text_value(st.cur)));
}

pub proof fn lemma_variable_usage(st: PState)
    ensures
        progress(st, variable_usage_p(st)),
{
    lemma_variable_value(st);
}

pub proof fn lemma_item_piece(st: PState)
    ensures
        progress(st, item_piece_p(st)),
{
    lemma_tag_lengths();
    lemma_text(st);
    lemma_wrapped_text(st, "#GIMMEH BOLD"@, "bold text"@, "<b>"@, "</b>"@, true, true);
    lemma_wrapped_text(st, "#GIMMEH ITALICS"@, "italics text"@, "<i>"@, "</i>"@, true, true);
    lemma_variable_usage(st);
}

pub proof fn lemma_item_pieces(st: PState)
    ensures
        no_more(st, item_pieces_p(st)),
    decreases measure(st),
{
    if !(st.cur.len() == 0 || eq_ic(st.cur, "#OIC"@)) {
        lemma_item_piece(st);
        if let Ok(s2) = item_piece_p(st) {
            lemma_item_pieces(s2);
        }
    }
}

pub proof fn lemma_item(st: PState)
    ensures
        progress(st, item_p(st)),
{
    lemma_tag_lengths();
    if let Ok(s1) = expect_p(st, "#GIMMEH ITEM"@) {
        let s2 = emit_raw_p(s1, "<li>"@);
        lemma_item_pieces(s2);
        if let Ok(s3) = item_pieces_p(s2) {
            lemma_expect(s3, "#OIC"@);
        }
    }
}

pub proof fn lemma_list_entry(st: PState)
    ensures
        progress(st, list_entry_p(st)),
{
    lemma_item(st);
    lemma_comment(st);
    lemma_newline(st);
}

pub proof fn lemma_list_items(st: PState)
    ensures
        no_more(st, list_items_p(st)),
    decreases measure(st),
{
    if opens_list_entry(st.cur) {
        lemma_list_entry(st);
        if let Ok(s2) = list_entry_p(st) {
            lemma_list_items(s2);
        }
    }
}

pub proof fn lemma_list_block(st: PState)
    ensures
        progress(st, list_block_p(st)),
{
    lemma_tag_lengths();
    if let Ok(s1) = expect_p(st, "#MAEK LIST"@) {
        let s2 = emit_raw_p(s1, "<ul>\n"@);
        lemma_list_items(s2);
        if let Ok(s3) = list_items_p(s2) {
            lemma_expect(s3, "#MKAY"@);
        }
    }
}

pub proof fn lemma_newline(st: PState)
    ensures
        progress(st, newline_p(st)),
{
    lemma_tag_lengths();
}

pub proof fn lemma_link(st: PState)
    ensures
        progress(st, link_p(st)),
{
    lemma_tag_lengths();
    if let Ok(s1) = expect_p(st, "#GIMMEH LINX"@) {
        let what = "address text after #GIMMEH LINX"@;
        lemma_inline_text(s1, what, true);
        if let Ok((s2, a)) = inline_text_p(s1, what, true) {
            lemma_expect(emit_piece_p(s2, link_html(a)), "#OIC"@);
        }
    }
}

pub proof fn lemma_variable_definition(st: PState)
    ensures
        progress(st, variable_definition_p(st)),
{
    lemma_tag_lengths();
    if let Ok(s1) = expect_p(st, "#IHAZ"@) {
        lemma_next_token(s1);
        if let Ok(s2) = next_token_p(s1) {
            lemma_expect(s2, "#ITIZ"@);
            if let Ok(s3) = expect_p(s2, "#ITIZ"@) {
                lemma_next_token(s3);
                if let Ok(s4) = next_token_p(s3) {
                    let name = text_value(s1.cur);
                    let value = text_value(s3.cur);
                    lemma_expect(define_p(s4, name, value), "#MKAY"@);
                }
            }
        }
    }
}

pub proof fn lemma_paragraph_item(st: PState)
    ensures
        progress(st, paragraph_item_p(st)),
{
    lemma_tag_lengths();
    lemma_text(st);
    lemma_wrapped_text(st, "#GIMMEH BOLD"@, "bold text"@, "<b>"@, "</b>"@, true, true);
    lemma_wrapped_text(st, "#GIMMEH ITALICS"@, "italics text"@, "<i>"@, "</i>"@, true, true);
    lemma_list_block(st);
    lemma_newline(st);
    lemma_link(st);
    lemma_variable_definition(st);
    lemma_variable_usage(st);
}

pub proof fn lemma_paragraph_items(st: PState)
    ensures
        no_more(st, paragraph_items_p(st)),
    decreases measure(st),
{
    if !(st.cur.len() == 0 || eq_ic(st.cur, "#MKAY"@)) {
        lemma_paragraph_item(st);
        if let Ok(s2) = paragraph_item_p(st) {
            lemma_paragraph_items(s2);
        }
    }
}

pub proof fn lemma_paragraph(st: PState)
    ensures
        progress(st, paragraph_p(st)),
{
    lemma_tag_lengths();
    if let Ok(s1) = expect_p(st, "#MAEK PARAGRAF"@) {
        let s2 = emit_raw_p(enter_scope_p(s1), "<p>"@);
        lemma_paragraph_items(s2);
        if let Ok(s3) = paragraph_items_p(s2) {
            lemma_expect(s3, "#MKAY"@);
        }
    }
}

pub proof fn lemma_comment(st: PState)
    ensures
        progress(st, comment_p(st)),
{
    lemma_tag_lengths();
    if let Ok(s1) = expect_p(st, "#OBTW"@) {
        lemma_next_token(s1);
        let s2 = if is_text(s1.cur) {
            next_token_p(s1)
        } else {
            Ok(s1)
        };
        if let Ok(s2) = s2 {
            lemma_expect(s2, "#TLDR"@);
        }
    }
}

pub proof fn lemma_body_item(st: PState)
    ensures
        progress(st, body_item_p(st)),
{
    lemma_tag_lengths();
    lemma_comment(st);
    lemma_paragraph(st);
    lemma_wrapped_text(st, "#GIMMEH BOLD"@, "bold text"@, "<b>"@, "</b>"@, true, true);
    lemma_wrapped_text(st, "#GIMMEH ITALICS"@, "italics text"@, "<i>"@, "</i>"@, true, true);
    lemma_list_block(st);
    lemma_newline(st);
    lemma_link(st);
    lemma_variable_definition(st);
    lemma_variable_usage(st);
    lemma_text(st);
}

} // verus!

verus! {

// ---------------------------------------------------------------- scopes

/// The bindings of one scope, each value by its view.
pub open spec fn scope_view(m: Map<Seq<char>, String>) -> Map<Seq<char>, Seq<char>> {
    m.map_values(|v: String| v@)
}

/// The bindings of each scope.
pub open spec fn scope_maps(v: Seq<StringHashMap<String>>) -> Seq<Map<Seq<char>, Seq<char>>> {
    v.map_values(|s: StringHashMap<String>| scope_view(s@))
}

/// The value that the innermost scope binding `name` gives it.
fn lookup_in(scopes: &Vec<StringHashMap<String>>, name: &str) -> (r: Option<String>)
    ensures
        r matches Some(v) ==> lookup_scopes(scope_maps(scopes@), name@) == Some(v@),
        r is None ==> lookup_scopes(scope_maps(scopes@), name@) is None,
{
    let ghost ms = scope_maps(scopes@);
    let mut i = scopes.len();
    assert(ms.take(i as int) =~= ms);
    while i > 0
        invariant
            ms == scope_maps(scopes@),
            i <= scopes@.len(),
            lookup_scopes(ms, name@) == lookup_scopes(ms.take(i as int), name@),
        decreases i,
    {
        let scope = &scopes[i - 1];
        assert(ms.take(i as int).last() == scope_view(scope@));
        assert(ms.take(i as int).drop_last() =~= ms.take(i - 1));
        match scope.get(name) {
            Some(v) => {
                return Some(v.clone());
            },
            None => {},
        }
        i -= 1;
    }
    None
}

// ---------------------------------------------------------------- the compiler

/// The compiler: it lexes a source text, then parses the tokens and
/// produces HTML in `output`.
pub struct LolcodeCompiler {
    lexer: SimpleLexicalAnalyzer,
    current_tok: String,
    scopes: Vec<StringHashMap<String>>,
    /// The HTML produced so far.
    pub output: String,
}

/// The outcome `r` of a parsing step, which left the compiler in the state
/// `after`, is the one that `s` describes.
pub open spec fn outcome(r: Result<(), String>, after: PState, s: Result<PState, Seq<char>>) -> bool {
    match s {
        Ok(st) => r is Ok && after == st,
        Err(m) => r matches Err(e) && e@ == m,
    }
}

/// The outcome `r` of a step that reads a text, which left the compiler in
/// the state `after`, is the one that `s` describes.
pub open spec fn valued(r: Result<String, String>, after: PState, s: Result<(PState, Seq<char>), Seq<char>>) -> bool {
    match s {
        Ok((st, v)) => r matches Ok(x) && x@ == v && after == st,
        Err(m) => r matches Err(e) && e@ == m,
    }
}

/// The error that `found_msg` describes.
fn found_error(what: &str, cur: &String) -> (r: String)
    ensures
        r@ == found_msg(what@, cur@),
{
    let mut e = String::from_str("Syntax error: expected ");
    e.append(what);
    e.append(", but found '");
    e.append(cur.as_str());
    e.append("'.");
    e
}

impl LolcodeCompiler {
    /// The state of the parser: the tokens of the lexer, the current token,
    /// the scopes, the `output` field, the annotations of the lexer.
    pub closed spec fn pstate(&self) -> PState {
        PState {
            toks: views(self.lexer.tokens@),
            cur: self.current_tok@,
            scopes: scope_maps(self.scopes@),
            out: self.output@,
            tags: views(self.lexer.known_tags@),
        }
    }

    /// The HTML produced so far: the `output` field.
    pub fn output(&self) -> (r: &String)
        ensures
            r@ == self.pstate().out,
    {
        &self.output
    }

    /// A compiler with no tokens, no current token, one empty scope and no output.
    pub fn new() -> (r: Self)
        ensures
            r.pstate() == (PState {
                toks: Seq::empty(),
                cur: Seq::empty(),
                scopes: seq![Map::empty()],
                out: Seq::empty(),
                tags: standard_tags(),
            }),
    {
        let mut scopes: Vec<StringHashMap<String>> = Vec::new();
        scopes.push(StringHashMap::new());
        let r = LolcodeCompiler {
            lexer: SimpleLexicalAnalyzer::new(""),
            current_tok: String::new(),
            scopes,
            output: String::new(),
        };
        assert(scope_view(Map::empty()) =~= Map::empty());
        assert(scope_maps(r.scopes@) =~= seq![Map::<Seq<char>, Seq<char>>::empty()]);
        assert(views(r.lexer.tokens@) =~= Seq::<Seq<char>>::empty());
        r
    }

    /// Whether the current token is a text token.
    fn is_text_token(&self) -> (b: bool)
        ensures
            b == is_text(self.pstate().cur),
    {
        let c = chars_of(self.current_tok.as_str());
        let p = chars_of("TEXT:");
        proof {
            reveal_strlit("TEXT:");
        }
        if c.len() < 5 {
            return false;
        }
        let b = matches_exact(&c, &p, 0);
        assert(c@.subrange(0, 5) =~= c@.take(5));
        b
    }

    /// The text of the current token.
    fn text_value(&self) -> (r: String)
        ensures
            r@ == text_value(self.pstate().cur),
    {
        if self.is_text_token() {
            let c = chars_of(self.current_tok.as_str());
            let (a, b) = trim_bounds(&c, 5, c.len());
            assert(c@.skip(5) =~= c@.subrange(5, c@.len() as int));
            string_of(&c, a, b)
        } else {
            String::new()
        }
    }

    /// Appends `s` to the output.
    fn emit_raw(&mut self, s: &str)
        ensures
            final(self).pstate() == emit_raw_p(old(self).pstate(), s@),
    {
        self.output.append(s);
    }

    /// Appends `s` and a space to the output, unless `s` is empty.
    fn emit_piece(&mut self, s: &str)
        ensures
            final(self).pstate() == emit_piece_p(old(self).pstate(), s@),
    {
        if !s.is_empty() {
            self.output.append(s);
            self.output.append(" ");
        }
    }

    /// Opens a new innermost scope.
    fn enter_scope(&mut self)
        ensures
            final(self).pstate() == enter_scope_p(old(self).pstate()),
    {
        self.scopes.push(StringHashMap::new());
        assert(scope_view(Map::empty()) =~= Map::empty());
        assert(scope_maps(self.scopes@) =~= scope_maps(old(self).scopes@).push(Map::empty()));
    }

    /// Closes the innermost scope, unless it is the only one.
    fn exit_scope(&mut self)
        ensures
            final(self).pstate() == exit_scope_p(old(self).pstate()),
    {
        if self.scopes.len() > 1 {
            self.scopes.pop();
            assert(scope_maps(self.scopes@) =~= scope_maps(old(self).scopes@).drop_last());
        }
    }

    /// Binds `name` to `value` in the innermost scope.
    fn define_variable(&mut self, name: String, value: String)
        ensures
            final(self).pstate() == define_p(old(self).pstate(), name@, value@),
    {
        if self.scopes.len() > 0 {
            let mut scope = self.scopes.pop().unwrap();
            let ghost old_scope = scope@;
            let ghost (n, v) = (name@, value@);
            scope.insert(name, value);
            proof {
                assert(scope_view(scope@) =~= scope_view(old_scope).insert(n, v));
            }
            self.scopes.push(scope);
            proof {
                let ms = scope_maps(old(self).scopes@);
                assert(scope_maps(self.scopes@) =~= ms.update(ms.len() - 1, ms.last().insert(name@, value@)));
            }
        }
    }

    /// The value of `name` in the innermost scope that binds it.
    fn lookup_variable(&self, name: &str) -> (r: Option<String>)
        ensures
            r matches Some(v) ==> lookup_scopes(self.pstate().scopes, name@) == Some(v@),
            r is None ==> lookup_scopes(self.pstate().scopes, name@) is None,
    {
        lookup_in(&self.scopes, name)
    }
}


/// Reads the first token: an empty token list is an error.
pub open spec fn start_p(st: PState) -> Result<PState, Seq<char>> {
    match next_token_p(st) {
        Err(e) => Err(e),
        Ok(s1) => if s1.cur.len() == 0 {
            Err("User error: the provided file is empty."@)
        } else {
            Ok(s1)
        },
    }
}

/// What a compiler does: lex a source text, move through its tokens, parse them.
pub trait Compiler {
    /// Lexes `source` and reads its first token.
    fn compile(&mut self, source: &str) -> (r: Result<(), String>);

    /// Moves to the next token and returns it (empty once there are none).
    fn next_token(&mut self) -> (r: Result<String, String>);

    /// Parses the tokens and produces the HTML.
    fn parse(&mut self) -> (r: Result<(), String>);

    /// The current token.
    fn current_token(&self) -> (r: String);

    /// Replaces the current token.
    fn set_current_token(&mut self, tok: String);
}

impl Compiler for LolcodeCompiler {
    /// Lexes `source` with the standard annotations, then reads the first
    /// token. A lexical error is returned as it is. Every source text lexes
    /// to one or the other (see `law_every_source_lexes`).
    fn compile(&mut self, source: &str) -> (r: Result<(), String>)
        ensures
            match lex_source(standard_tags(), source@) {
                Lexed::Done(t) => outcome(
                    r,
                    final(self).pstate(),
                    start_p(PState { toks: t.reverse(), tags: standard_tags(), ..old(self).pstate() }),
                ),
                Lexed::Failed(_, m) => r matches Err(e) && e@ == m,
                Lexed::Stuck => false,
            },
    {
        self.lexer = SimpleLexicalAnalyzer::new(source);
        proof {
            law_standard_tags_not_empty();
            law_every_source_lexes(standard_tags(), source@);
        }
        match self.lexer.tokenize(source) {
            Err(e) => {
                return Err(e);
            },
            Ok(()) => {},
        }
        self.start()
    }

    /// Moves to the next token (see `next_token_p`).
    fn next_token(&mut self) -> (r: Result<String, String>)
        ensures
            match next_token_p(old(self).pstate()) {
                Ok(s) => r matches Ok(t) && t@ == s.cur && final(self).pstate() == s,
                Err(m) => r matches Err(e) && e@ == m,
            },
    {
        let ghost old_toks = self.lexer.tokens@;
        let candidate = match self.lexer.tokens.pop() {
            Some(t) => t,
            None => String::new(),
        };
        proof {
            if old_toks.len() > 0 {
                assert(views(self.lexer.tokens@) =~= views(old_toks).drop_last());
            }
        }
        if candidate.as_str().is_empty() {
            self.current_tok = String::new();
            Ok(String::new())
        } else if self.lexer.lookup(candidate.as_str()) {
            self.current_tok = candidate.clone();
            Ok(candidate)
        } else {
            let mut e = String::from_str("Lexical error: '");
            e.append(candidate.as_str());
            e.append("' is not a recognized token.");
            Err(e)
        }
    }

    /// Parses the document, then cleans up its HTML (see `parse_p`).
    fn parse(&mut self) -> (r: Result<(), String>)
        ensures
            outcome(r, final(self).pstate(), parse_p(old(self).pstate())),
    {
        match self.program() {
            Err(e) => {
                return Err(e);
            },
            Ok(()) => {},
        }
        self.cleanup_output();
        Ok(())
    }

    /// The current token.
    fn current_token(&self) -> (r: String)
        ensures
            r@ == self.pstate().cur,
    {
        self.current_tok.clone()
    }

    /// Replaces the current token.
    fn set_current_token(&mut self, tok: String)
        ensures
            final(self).pstate() == (PState { cur: tok@, ..old(self).pstate() }),
    {
        self.current_tok = tok;
    }
}

impl LolcodeCompiler {
    /// Reads the first token (see `start_p`).
    fn start(&mut self) -> (r: Result<(), String>)
        ensures
            outcome(r, final(self).pstate(), start_p(old(self).pstate())),
    {
        let candidate = match self.next_token() {
            Err(e) => {
                return Err(e);
            },
            Ok(c) => c,
        };
        if candidate.as_str().is_empty() {
            return Err(String::from_str("User error: the provided file is empty."));
        }
        self.current_tok = candidate;
        Ok(())
    }

    /// Requires the current token to be `expected`, ignoring ASCII case, and moves past it.
    fn expect(&mut self, expected: &str) -> (r: Result<(), String>)
        ensures
            outcome(r, final(self).pstate(), expect_p(old(self).pstate(), expected@)),
    {
        if eq_ic_str(self.current_tok.as_str(), expected) {
            match self.next_token() {
                Ok(_) => Ok(()),
                Err(e) => Err(e),
            }
        } else {
            let mut what = String::from_str("'");
            what.append(expected);
            what.append("'");
            Err(found_error(what.as_str(), &self.current_tok))
        }
    }

    /// A piece of text (see `text_p`).
    fn text(&mut self) -> (r: Result<(), String>)
        ensures
            outcome(r, final(self).pstate(), text_p(old(self).pstate())),
    {
        if self.is_text_token() {
            let value = self.text_value();
            self.emit_piece(value.as_str());
            match self.next_token() {
                Ok(_) => Ok(()),
                Err(e) => Err(e),
            }
        } else {
            Err(found_error("text", &self.current_tok))
        }
    }

    /// A variable use, whose value is returned (see `variable_value_p`).
    fn variable_value(&mut self) -> (r: Result<String, String>)
        ensures
            valued(r, final(self).pstate(), variable_value_p(old(self).pstate())),
    {
        match self.expect("#LEMMESEE") {
            Err(e) => {
                return Err(e);
            },
            Ok(()) => {},
        }
        if !self.is_text_token() {
            return Err(found_error("variable name after #LEMMESEE", &self.current_tok));
        }
        let var_name = self.text_value();
        if contains_ws(var_name.as_str()) {
            return Err(found_error("a single-word variable name after #LEMMESEE", &self.current_tok));
        }
        let value = match self.lookup_variable(var_name.as_str()) {
            Some(value) => value,
            None => {
                let mut e = String::from_str("Static semantic error: variable '");
                e.append(var_name.as_str());
                e.append("' was used before it was defined.");
                return Err(e);
            },
        };
        match self.next_token() {
            Err(e) => {
                return Err(e);
            },
            Ok(_) => {},
        }
        match self.expect("#OIC") {
            Err(e) => Err(e),
            Ok(()) => Ok(value),
        }
    }

    /// The text inside an annotation (see `inline_text_p`).
    fn inline_text(&mut self, what: &str, vars: bool) -> (r: Result<String, String>)
        ensures
            valued(r, final(self).pstate(), inline_text_p(old(self).pstate(), what@, vars)),
    {
        if self.is_text_token() {
            let t = self.text_value();
            match self.next_token() {
                Err(e) => Err(e),
                Ok(_) => Ok(t),
            }
        } else if vars && eq_ic_str(self.current_tok.as_str(), "#LEMMESEE") {
            self.variable_value()
        } else {
            Err(found_error(what, &self.current_tok))
        }
    }

    /// An annotation that wraps one piece of text (see `wrapped_text_p`).
    fn wrapped_text(
        &mut self,
        open: &str,
        what: &str,
        before: &str,
        after: &str,
        piece: bool,
        vars: bool,
    ) -> (r: Result<(), String>)
        ensures
            outcome(
                r,
                final(self).pstate(),
                wrapped_text_p(old(self).pstate(), open@, what@, before@, after@, piece, vars),
            ),
    {
        match self.expect(open) {
            Err(e) => {
                return Err(e);
            },
            Ok(()) => {},
        }
        let t = match self.inline_text(what, vars) {
            Err(e) => {
                return Err(e);
            },
            Ok(t) => t,
        };
        let mut h = String::from_str(before);
        h.append(t.as_str());
        h.append(after);
        if piece {
            self.emit_piece(h.as_str());
        } else {
            self.emit_raw(h.as_str());
        }
        self.expect("#OIC")
    }

    /// `#OBTW` [text] `#TLDR` (see `comment_p`).
    fn comment(&mut self) -> (r: Result<(), String>)
        ensures
            outcome(r, final(self).pstate(), comment_p(old(self).pstate())),
    {
        match self.expect("#OBTW") {
            Err(e) => {
                return Err(e);
            },
            Ok(()) => {},
        }
        let comment_text = self.text_value();
        if self.is_text_token() {
            match self.next_token() {
                Err(e) => {
                    return Err(e);
                },
                Ok(_) => {},
            }
        }
        match self.expect("#TLDR") {
            Err(e) => {
                return Err(e);
            },
            Ok(()) => {},
        }
        let mut c = String::from_str("<!-- ");
        c.append(comment_text.as_str());
        c.append(" -->\n");
        self.emit_raw(c.as_str());
        Ok(())
    }

    /// `#GIMMEH TITLE` text `#OIC` (see `title_p`).
    fn title(&mut self) -> (r: Result<(), String>)
        ensures
            outcome(r, final(self).pstate(), title_p(old(self).pstate())),
    {
        self.wrapped_text("#GIMMEH TITLE", "title text", "<title>", "</title>\n", false, false)
    }

    /// `#MAEK HEAD` title `#MKAY` (see `head_p`).
    fn head(&mut self) -> (r: Result<(), String>)
        ensures
            outcome(r, final(self).pstate(), head_p(old(self).pstate())),
    {
        match self.expect("#MAEK HEAD") {
            Err(e) => {
                return Err(e);
            },
            Ok(()) => {},
        }
        self.emit_raw("<head>\n");
        match self.title() {
            Err(e) => {
                return Err(e);
            },
            Ok(()) => {},
        }
        self.emit_raw("</head>\n");
        self.expect("#MKAY")
    }

    /// `#GIMMEH BOLD` text `#OIC` (see `bold_p`).
    fn bold(&mut self) -> (r: Result<(), String>)
        ensures
            outcome(r, final(self).pstate(), bold_p(old(self).pstate())),
    {
        self.wrapped_text("#GIMMEH BOLD", "bold text", "<b>", "</b>", true, true)
    }

    /// `#GIMMEH ITALICS` text `#OIC` (see `italics_p`).
    fn italics(&mut self) -> (r: Result<(), String>)
        ensures
            outcome(r, final(self).pstate(), italics_p(old(self).pstate())),
    {
        self.wrapped_text("#GIMMEH ITALICS", "italics text", "<i>", "</i>", true, true)
    }

    /// `#NEWLINE` (see `newline_p`).
    fn newline_tag(&mut self) -> (r: Result<(), String>)
        ensures
            outcome(r, final(self).pstate(), newline_p(old(self).pstate())),
    {
        match self.expect("#NEWLINE") {
            Err(e) => {
                return Err(e);
            },
            Ok(()) => {},
        }
        self.emit_raw("<br>\n");
        Ok(())
    }

    /// `#GIMMEH LINX` address `#OIC` (see `link_p`).
    fn link(&mut self) -> (r: Result<(), String>)
        ensures
            outcome(r, final(self).pstate(), link_p(old(self).pstate())),
    {
        match self.expect("#GIMMEH LINX") {
            Err(e) => {
                return Err(e);
            },
            Ok(()) => {},
        }
        let address = match self.inline_text("address text after #GIMMEH LINX", true) {
            Err(e) => {
                return Err(e);
            },
            Ok(a) => a,
        };
        let mut h = String::from_str("<a href=\"");
        h.append(address.as_str());
        h.append("\">");
        h.append(address.as_str());
        h.append("</a>");
        self.emit_piece(h.as_str());
        self.expect("#OIC")
    }

    /// `#IHAZ` name `#ITIZ` value `#MKAY` (see `variable_definition_p`).
    fn variable_definition(&mut self) -> (r: Result<(), String>)
        ensures
            outcome(r, final(self).pstate(), variable_definition_p(old(self).pstate())),
    {
        match self.expect("#IHAZ") {
            Err(e) => {
                return Err(e);
            },
            Ok(()) => {},
        }
        if !self.is_text_token() {
            return Err(found_error("variable name after #IHAZ", &self.current_tok));
        }
        let var_name = self.text_value();
        if contains_ws(var_name.as_str()) {
            return Err(found_error("a single-word variable name after #IHAZ", &self.current_tok));
        }
        match self.next_token() {
            Err(e) => {
                return Err(e);
            },
            Ok(_) => {},
        }
        match self.expect("#ITIZ") {
            Err(e) => {
                return Err(e);
            },
            Ok(()) => {},
        }
        if !self.is_text_token() {
            return Err(found_error("variable value after #ITIZ", &self.current_tok));
        }
        let var_value = self.text_value();
        match self.next_token() {
            Err(e) => {
                return Err(e);
            },
            Ok(_) => {},
        }
        self.define_variable(var_name, var_value);
        self.expect("#MKAY")
    }

    /// `#LEMMESEE` name `#OIC` (see `variable_usage_p`).
    fn variable_usage(&mut self) -> (r: Result<(), String>)
        ensures
            outcome(r, final(self).pstate(), variable_usage_p(old(self).pstate())),
    {
        match self.variable_value() {
            Err(e) => Err(e),
            Ok(v) => {
                self.emit_piece(v.as_str());
                Ok(())
            },
        }
    }
}


impl LolcodeCompiler {
    /// What may stand in a list item (see `item_piece_p`).
    fn item_piece(&mut self) -> (r: Result<(), String>)
        ensures
            outcome(r, final(self).pstate(), item_piece_p(old(self).pstate())),
    {
        if eq_ic_str(self.current_tok.as_str(), "#OBTW") {
            self.comment()
        } else if eq_ic_str(self.current_tok.as_str(), "#NEWLINE") {
            self.newline_tag()
        } else if self.is_text_token() {
            self.text()
        } else if eq_ic_str(self.current_tok.as_str(), "#GIMMEH BOLD") {
            self.bold()
        } else if eq_ic_str(self.current_tok.as_str(), "#GIMMEH ITALICS") {
            self.italics()
        } else if eq_ic_str(self.current_tok.as_str(), "#LEMMESEE") {
            self.variable_usage()
        } else {
            let mut e = String::from_str("Syntax error: invalid list item content '");
            e.append(self.current_tok.as_str());
            e.append("'.");
            Err(e)
        }
    }

    /// `#GIMMEH ITEM` pieces `#OIC` (see `item_p`).
    #[verifier::loop_isolation(false)]
    fn item(&mut self) -> (r: Result<(), String>)
        ensures
            outcome(r, final(self).pstate(), item_p(old(self).pstate())),
    {
        match self.expect("#GIMMEH ITEM") {
            Err(e) => {
                return Err(e);
            },
            Ok(()) => {},
        }
        self.emit_raw("<li>");
        if eq_ic_str(self.current_tok.as_str(), "#OIC") {
            return Err(String::from_str("Syntax error: empty list item is not allowed."));
        }
        let ghost start = self.pstate();
        while !self.current_tok.as_str().is_empty() && !eq_ic_str(self.current_tok.as_str(), "#OIC")
            invariant
                item_pieces_p(self.pstate()) == item_pieces_p(start),
            decreases measure(self.pstate()),
        {
            let ghost before = self.pstate();
            match self.item_piece() {
                Err(e) => {
                    return Err(e);
                },
                Ok(()) => {},
            }
            proof {
                lemma_item_piece(before);
            }
        }
        match self.expect("#OIC") {
            Err(e) => {
                return Err(e);
            },
            Ok(()) => {},
        }
        self.emit_raw("</li>\n");
        Ok(())
    }

    /// Whether the current token opens an item, a comment or a line break.
    fn opens_list_entry(&self) -> (b: bool)
        ensures
            b == opens_list_entry(self.pstate().cur),
    {
        eq_ic_str(self.current_tok.as_str(), "#GIMMEH ITEM") || eq_ic_str(self.current_tok.as_str(), "#OBTW")
            || eq_ic_str(self.current_tok.as_str(), "#NEWLINE")
    }

    /// `#MAEK LIST` items `#MKAY` (see `list_block_p`).
    #[verifier::loop_isolation(false)]
    fn list_block(&mut self) -> (r: Result<(), String>)
        ensures
            outcome(r, final(self).pstate(), list_block_p(old(self).pstate())),
    {
        match self.expect("#MAEK LIST") {
            Err(e) => {
                return Err(e);
            },
            Ok(()) => {},
        }
        self.emit_raw("<ul>\n");
        if !eq_ic_str(self.current_tok.as_str(), "#GIMMEH ITEM") {
            return Err(String::from_str("Syntax error: list must contain at least one #GIMMEH ITEM."));
        }
        let ghost start = self.pstate();
        while self.opens_list_entry()
            invariant
                list_items_p(self.pstate()) == list_items_p(start),
            decreases measure(self.pstate()),
        {
            let ghost before = self.pstate();
            let step = if eq_ic_str(self.current_tok.as_str(), "#GIMMEH ITEM") {
                self.item()
            } else if eq_ic_str(self.current_tok.as_str(), "#OBTW") {
                self.comment()
            } else {
                self.newline_tag()
            };
            match step {
                Err(e) => {
                    return Err(e);
                },
                Ok(()) => {},
            }
            proof {
                lemma_list_entry(before);
            }
        }
        match self.expect("#MKAY") {
            Err(e) => {
                return Err(e);
            },
            Ok(()) => {},
        }
        self.emit_raw("</ul>\n");
        Ok(())
    }

    /// What may stand in a paragraph (see `paragraph_item_p`).
    fn paragraph_item(&mut self) -> (r: Result<(), String>)
        ensures
            outcome(r, final(self).pstate(), paragraph_item_p(old(self).pstate())),
    {
        if eq_ic_str(self.current_tok.as_str(), "#OBTW") {
            self.comment()
        } else if self.is_text_token() {
            self.text()
        } else if eq_ic_str(self.current_tok.as_str(), "#GIMMEH BOLD") {
            self.bold()
        } else if eq_ic_str(self.current_tok.as_str(), "#GIMMEH ITALICS") {
            self.italics()
        } else if eq_ic_str(self.current_tok.as_str(), "#MAEK LIST") {
            self.list_block()
        } else if eq_ic_str(self.current_tok.as_str(), "#NEWLINE") {
            self.newline_tag()
        } else if eq_ic_str(self.current_tok.as_str(), "#GIMMEH LINX") {
            self.link()
        } else if eq_ic_str(self.current_tok.as_str(), "#IHAZ") {
            self.variable_definition()
        } else if eq_ic_str(self.current_tok.as_str(), "#LEMMESEE") {
            self.variable_usage()
        } else {
            let mut e = String::from_str("Syntax error: invalid paragraph item '");
            e.append(self.current_tok.as_str());
            e.append("'.");
            Err(e)
        }
    }

    /// `#MAEK PARAGRAF` items `#MKAY` (see `paragraph_p`).
    #[verifier::loop_isolation(false)]
    fn paragraph(&mut self) -> (r: Result<(), String>)
        ensures
            outcome(r, final(self).pstate(), paragraph_p(old(self).pstate())),
    {
        match self.expect("#MAEK PARAGRAF") {
            Err(e) => {
                return Err(e);
            },
            Ok(()) => {},
        }
        self.enter_scope();
        self.emit_raw("<p>");
        if eq_ic_str(self.current_tok.as_str(), "#MKAY") {
            return Err(String::from_str("Syntax error: empty paragraph is not allowed."));
        }
        let ghost start = self.pstate();
        while !self.current_tok.as_str().is_empty() && !eq_ic_str(self.current_tok.as_str(), "#MKAY")
            invariant
                paragraph_items_p(self.pstate()) == paragraph_items_p(start),
            decreases measure(self.pstate()),
        {
            let ghost before = self.pstate();
            match self.paragraph_item() {
                Err(e) => {
                    return Err(e);
                },
                Ok(()) => {},
            }
            proof {
                lemma_paragraph_item(before);
            }
        }
        match self.expect("#MKAY") {
            Err(e) => {
                return Err(e);
            },
            Ok(()) => {},
        }
        self.emit_raw("</p>\n");
        self.exit_scope();
        Ok(())
    }

    /// What may stand in the body (see `body_item_p`).
    fn body_item(&mut self) -> (r: Result<(), String>)
        ensures
            outcome(r, final(self).pstate(), body_item_p(old(self).pstate())),
    {
        if eq_ic_str(self.current_tok.as_str(), "#OBTW") {
            self.comment()
        } else if eq_ic_str(self.current_tok.as_str(), "#MAEK PARAGRAF") {
            self.paragraph()
        } else if eq_ic_str(self.current_tok.as_str(), "#GIMMEH BOLD") {
            self.bold()
        } else if eq_ic_str(self.current_tok.as_str(), "#GIMMEH ITALICS") {
            self.italics()
        } else if eq_ic_str(self.current_tok.as_str(), "#MAEK LIST") {
            self.list_block()
        } else if eq_ic_str(self.current_tok.as_str(), "#NEWLINE") {
            self.newline_tag()
        } else if eq_ic_str(self.current_tok.as_str(), "#GIMMEH LINX") {
            self.link()
        } else if eq_ic_str(self.current_tok.as_str(), "#IHAZ") {
            self.variable_definition()
        } else if eq_ic_str(self.current_tok.as_str(), "#LEMMESEE") {
            self.variable_usage()
        } else if self.is_text_token() {
            self.text()
        } else {
            let mut e = String::from_str("Syntax error: unexpected token '");
            e.append(self.current_tok.as_str());
            e.append("'.");
            Err(e)
        }
    }

    /// The comments that open a document, then its head if there is one (see `prologue_p`).
    fn prologue(&mut self) -> (r: Result<(), String>)
        ensures
            outcome(r, final(self).pstate(), prologue_p(old(self).pstate())),
    {
        while eq_ic_str(self.current_tok.as_str(), "#OBTW")
            invariant
                leading_comments_p(self.pstate()) == leading_comments_p(old(self).pstate()),
            decreases measure(self.pstate()),
        {
            let ghost before = self.pstate();
            match self.comment() {
                Err(e) => {
                    return Err(e);
                },
                Ok(()) => {},
            }
            proof {
                lemma_comment(before);
            }
        }
        if eq_ic_str(self.current_tok.as_str(), "#MAEK HEAD") {
            self.head()
        } else {
            Ok(())
        }
    }

    /// The body, up to `#KBYE` (see `body_p`).
    fn body(&mut self) -> (r: Result<(), String>)
        ensures
            outcome(r, final(self).pstate(), body_p(old(self).pstate())),
    {
        while !self.current_tok.as_str().is_empty() && !eq_ic_str(self.current_tok.as_str(), "#KBYE")
            invariant
                body_p(self.pstate()) == body_p(old(self).pstate()),
            decreases measure(self.pstate()),
        {
            let ghost before = self.pstate();
            match self.body_item() {
                Err(e) => {
                    return Err(e);
                },
                Ok(()) => {},
            }
            proof {
                lemma_body_item(before);
            }
        }
        Ok(())
    }

    /// A whole document (see `program_p`).
    fn program(&mut self) -> (r: Result<(), String>)
        ensures
            outcome(r, final(self).pstate(), program_p(old(self).pstate())),
    {
        if !eq_ic_str(self.current_tok.as_str(), "#HAI") {
            return Err(String::from_str("Syntax error: program must start with #HAI."));
        }
        self.emit_raw("<html>\n");
        match self.expect("#HAI") {
            Err(e) => {
                return Err(e);
            },
            Ok(()) => {},
        }
        match self.prologue() {
            Err(e) => {
                return Err(e);
            },
            Ok(()) => {},
        }
        match self.body() {
            Err(e) => {
                return Err(e);
            },
            Ok(()) => {},
        }
        if !eq_ic_str(self.current_tok.as_str(), "#KBYE") {
            return Err(String::from_str("Syntax error: program must end with #KBYE."));
        }
        match self.expect("#KBYE") {
            Err(e) => {
                return Err(e);
            },
            Ok(()) => {},
        }
        if !self.current_tok.as_str().is_empty() {
            let mut e = String::from_str("Syntax error: extra tokens found after #KBYE: '");
            e.append(self.current_tok.as_str());
            e.append("'.");
            return Err(e);
        }
        self.emit_raw("</html>\n");
        Ok(())
    }

    /// Removes the spaces before punctuation and closing tags, and after
    /// opening tags (see `cleanup`).
    fn cleanup_output(&mut self)
        ensures
            final(self).pstate() == (PState { out: cleanup(old(self).pstate().out), ..old(self).pstate() }),
    {
        let c0 = chars_of(self.output.as_str());
        let c1 = replace_exec(&c0, &chars_of(" ."), &chars_of("."));
        let c2 = replace_exec(&c1, &chars_of(" ,"), &chars_of(","));
        let c3 = replace_exec(&c2, &chars_of(" !"), &chars_of("!"));
        let c4 = replace_exec(&c3, &chars_of(" ?"), &chars_of("?"));
        let c5 = replace_exec(&c4, &chars_of(" :"), &chars_of(":"));
        let c6 = replace_exec(&c5, &chars_of(" ;"), &chars_of(";"));
        let c7 = replace_exec(&c6, &chars_of(" </p>"), &chars_of("</p>"));
        let c8 = replace_exec(&c7, &chars_of(" </li>"), &chars_of("</li>"));
        let c9 = replace_exec(&c8, &chars_of("> </"), &chars_of("></"));
        let c10 = replace_exec(&c9, &chars_of("<p> "), &chars_of("<p>"));
        let c11 = replace_exec(&c10, &chars_of("<li> "), &chars_of("<li>"));
        self.output = string_of(&c11, 0, c11.len());
        assert(c11@.subrange(0, c11@.len() as int) =~= c11@);
    }
}

} // verus!
