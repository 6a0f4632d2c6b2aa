use lolcode::{Compiler, LolcodeCompiler};

fn compile_and_parse(source: &str) -> Result<String, String> {
    let mut c = LolcodeCompiler::new();
    c.compile(source)?;
    c.parse()?;
    Ok(c.output)
}

#[test]
fn new_compiler_is_empty() {
    let c = LolcodeCompiler::new();
    assert_eq!(c.output, "");
    assert_eq!(c.current_token(), "");
}

#[test]
fn minimal_document() {
    assert_eq!(compile_and_parse("#HAI\n#KBYE"), Ok("<html>\n</html>\n".to_string()));
}

#[test]
fn head_and_paragraph() {
    let src = "#HAI\n#MAEK HEAD\n#GIMMEH TITLE My Page #OIC\n#MKAY\n#MAEK PARAGRAF\nHello , world !\n#GIMMEH BOLD bold #OIC\n#MKAY\n#KBYE";
    assert_eq!(
        compile_and_parse(src),
        Ok("<html>\n<head>\n<title>My Page</title>\n</head>\n<p>Hello, world! <b>bold</b></p>\n</html>\n"
            .to_string())
    );
}

#[test]
fn annotations_in_any_case() {
    assert_eq!(
        compile_and_parse("#hai #gimmeh italics slanted #oic #KbYe"),
        Ok("<html>\n<i>slanted</i></html>\n".to_string())
    );
}

#[test]
fn list_with_items() {
    let src = "#HAI #MAEK LIST #GIMMEH ITEM one #OIC #GIMMEH ITEM two #GIMMEH BOLD b #OIC #OIC #MKAY #KBYE";
    assert_eq!(
        compile_and_parse(src),
        Ok("<html>\n<ul>\n<li>one</li>\n<li>two <b>b</b></li>\n</ul>\n</html>\n".to_string())
    );
}

#[test]
fn link_newline_and_comment() {
    let src = "#HAI\n#OBTW a comment #TLDR\n#GIMMEH LINX http://x.org #OIC\n#NEWLINE\n#KBYE";
    assert_eq!(
        compile_and_parse(src),
        Ok("<html>\n<!-- a comment -->\n<a href=\"http://x.org\">http://x.org</a> <br>\n</html>\n"
            .to_string())
    );
}

#[test]
fn empty_comment_in_output() {
    assert_eq!(
        compile_and_parse("#HAI #OBTW #TLDR #KBYE"),
        Ok("<html>\n<!--  -->\n</html>\n".to_string())
    );
}

#[test]
fn variable_defined_then_used() {
    let src = "#HAI\n#IHAZ name #ITIZ Bob #MKAY\n#MAEK PARAGRAF Hi #LEMMESEE name #OIC #MKAY\n#KBYE";
    assert_eq!(compile_and_parse(src), Ok("<html>\n<p>Hi Bob</p>\n</html>\n".to_string()));
}

#[test]
fn variable_redefined_in_paragraph_shadows() {
    let src = "#HAI #IHAZ x #ITIZ outer #MKAY #MAEK PARAGRAF #IHAZ x #ITIZ inner #MKAY #LEMMESEE x #OIC #MKAY #LEMMESEE x #OIC #KBYE";
    assert_eq!(
        compile_and_parse(src),
        Ok("<html>\n<p>inner</p>\nouter </html>\n".to_string())
    );
}

#[test]
fn variable_defined_in_paragraph_is_local() {
    let src = "#HAI\n#MAEK PARAGRAF #IHAZ x #ITIZ 1 #MKAY #MKAY\n#LEMMESEE x #OIC\n#KBYE";
    assert_eq!(
        compile_and_parse(src),
        Err("Static semantic error: variable 'x' was used before it was defined.".to_string())
    );
}

#[test]
fn undefined_variable() {
    assert_eq!(
        compile_and_parse("#HAI #LEMMESEE y #OIC #KBYE"),
        Err("Static semantic error: variable 'y' was used before it was defined.".to_string())
    );
}

#[test]
fn program_must_start_with_hai() {
    assert_eq!(
        compile_and_parse("#KBYE"),
        Err("Syntax error: program must start with #HAI.".to_string())
    );
}

#[test]
fn program_must_end_with_kbye() {
    assert_eq!(
        compile_and_parse("#HAI hello"),
        Err("Syntax error: program must end with #KBYE.".to_string())
    );
}

#[test]
fn nothing_after_kbye() {
    assert_eq!(
        compile_and_parse("#HAI #KBYE trailing"),
        Err("Syntax error: extra tokens found after #KBYE: 'TEXT:trailing'.".to_string())
    );
}

#[test]
fn empty_file() {
    let mut c = LolcodeCompiler::new();
    assert_eq!(c.compile("  \n\n"), Err("User error: the provided file is empty.".to_string()));
}

#[test]
fn lexical_error_from_compile() {
    let mut c = LolcodeCompiler::new();
    assert_eq!(
        c.compile("#HAI <x> #KBYE"),
        Err("Lexical error: invalid character found in line '#HAI <x> #KBYE'".to_string())
    );
}

#[test]
fn empty_paragraph() {
    assert_eq!(
        compile_and_parse("#HAI #MAEK PARAGRAF #MKAY #KBYE"),
        Err("Syntax error: empty paragraph is not allowed.".to_string())
    );
}

#[test]
fn empty_list_and_item() {
    assert_eq!(
        compile_and_parse("#HAI #MAEK LIST #MKAY #KBYE"),
        Err("Syntax error: list must contain at least one #GIMMEH ITEM.".to_string())
    );
    assert_eq!(
        compile_and_parse("#HAI #MAEK LIST #GIMMEH ITEM #OIC #MKAY #KBYE"),
        Err("Syntax error: empty list item is not allowed.".to_string())
    );
}

#[test]
fn invalid_items() {
    assert_eq!(
        compile_and_parse("#HAI #MAEK PARAGRAF #MAEK HEAD #MKAY #KBYE"),
        Err("Syntax error: invalid paragraph item '#MAEK HEAD'.".to_string())
    );
    assert_eq!(
        compile_and_parse("#HAI #MAEK LIST #GIMMEH ITEM #GIMMEH LINX x #OIC #OIC #MKAY #KBYE"),
        Err("Syntax error: invalid list item content '#GIMMEH LINX'.".to_string())
    );
    assert_eq!(
        compile_and_parse("#HAI #OIC #KBYE"),
        Err("Syntax error: unexpected token '#OIC'.".to_string())
    );
}

#[test]
fn expected_token_errors() {
    assert_eq!(
        compile_and_parse("#HAI #GIMMEH BOLD x #KBYE"),
        Err("Syntax error: expected '#OIC', but found '#KBYE'.".to_string())
    );
    assert_eq!(
        compile_and_parse("#HAI #GIMMEH BOLD #OIC #KBYE"),
        Err("Syntax error: expected bold text, but found '#OIC'.".to_string())
    );
    assert_eq!(
        compile_and_parse("#HAI #GIMMEH ITALICS #OIC #KBYE"),
        Err("Syntax error: expected italics text, but found '#OIC'.".to_string())
    );
    assert_eq!(
        compile_and_parse("#HAI #MAEK HEAD #GIMMEH TITLE #OIC #MKAY #KBYE"),
        Err("Syntax error: expected title text, but found '#OIC'.".to_string())
    );
    assert_eq!(
        compile_and_parse("#HAI #MAEK HEAD x #MKAY #KBYE"),
        Err("Syntax error: expected '#GIMMEH TITLE', but found 'TEXT:x'.".to_string())
    );
    assert_eq!(
        compile_and_parse("#HAI #GIMMEH LINX #OIC #KBYE"),
        Err("Syntax error: expected address text after #GIMMEH LINX, but found '#OIC'.".to_string())
    );
    assert_eq!(
        compile_and_parse("#HAI #IHAZ #ITIZ v #MKAY #KBYE"),
        Err("Syntax error: expected variable name after #IHAZ, but found '#ITIZ'.".to_string())
    );
    assert_eq!(
        compile_and_parse("#HAI #IHAZ n #ITIZ #MKAY #KBYE"),
        Err("Syntax error: expected variable value after #ITIZ, but found '#MKAY'.".to_string())
    );
    assert_eq!(
        compile_and_parse("#HAI #LEMMESEE #OIC #KBYE"),
        Err("Syntax error: expected variable name after #LEMMESEE, but found '#OIC'.".to_string())
    );
}

#[test]
fn next_token_walks_the_tokens_in_order() {
    let mut c = LolcodeCompiler::new();
    assert_eq!(c.compile("#HAI hi #KBYE"), Ok(()));
    assert_eq!(c.current_token(), "#HAI");
    assert_eq!(c.next_token(), Ok("TEXT:hi".to_string()));
    assert_eq!(c.current_token(), "TEXT:hi");
    assert_eq!(c.next_token(), Ok("#KBYE".to_string()));
    assert_eq!(c.next_token(), Ok(String::new()));
    assert_eq!(c.current_token(), "");
    assert_eq!(c.next_token(), Ok(String::new()));
}

#[test]
fn set_current_token_changes_what_is_parsed() {
    let mut c = LolcodeCompiler::new();
    assert_eq!(c.compile("#HAI #KBYE"), Ok(()));
    c.set_current_token("#KBYE".to_string());
    assert_eq!(c.current_token(), "#KBYE");
    assert_eq!(c.parse(), Err("Syntax error: program must start with #HAI.".to_string()));
}

#[test]
fn punctuation_clean_up() {
    assert_eq!(
        compile_and_parse("#HAI\n#MAEK PARAGRAF\nwait ; what ? yes : no .\n#MKAY\n#KBYE"),
        Ok("<html>\n<p>wait; what? yes: no.</p>\n</html>\n".to_string())
    );
}

#[test]
fn head_only_at_the_start() {
    assert_eq!(
        compile_and_parse("#HAI\n#OBTW first #TLDR\n#MAEK HEAD #GIMMEH TITLE T #OIC #MKAY\nbody\n#KBYE"),
        Ok("<html>\n<!-- first -->\n<head>\n<title>T</title>\n</head>\nbody </html>\n".to_string())
    );
    assert_eq!(
        compile_and_parse("#HAI\nbody\n#MAEK HEAD #GIMMEH TITLE T #OIC #MKAY\n#KBYE"),
        Err("Syntax error: unexpected token '#MAEK HEAD'.".to_string())
    );
    assert_eq!(
        compile_and_parse("#HAI #MAEK HEAD #GIMMEH TITLE T #OIC #MKAY #MAEK HEAD #GIMMEH TITLE U #OIC #MKAY #KBYE"),
        Err("Syntax error: unexpected token '#MAEK HEAD'.".to_string())
    );
}

#[test]
fn comments_inside_paragraphs_and_items() {
    let src = "#HAI #MAEK PARAGRAF a #OBTW c1 #TLDR #MAEK LIST #GIMMEH ITEM #OBTW c2 #TLDR x #OIC #MKAY #MKAY #KBYE";
    assert_eq!(
        compile_and_parse(src),
        Ok("<html>\n<p>a <!-- c1 -->\n<ul>\n<li><!-- c2 -->\nx</li>\n</ul>\n</p>\n</html>\n".to_string())
    );
}

#[test]
fn line_break_inside_an_item() {
    assert_eq!(
        compile_and_parse("#HAI #MAEK LIST #GIMMEH ITEM a #NEWLINE b #OIC #MKAY #KBYE"),
        Ok("<html>\n<ul>\n<li>a <br>\nb</li>\n</ul>\n</html>\n".to_string())
    );
}

#[test]
fn variable_name_is_one_word() {
    assert_eq!(
        compile_and_parse("#HAI #IHAZ a b #ITIZ v #MKAY #LEMMESEE a b #OIC #KBYE"),
        Err("Syntax error: expected a single-word variable name after #IHAZ, but found 'TEXT:a b'."
            .to_string())
    );
    assert_eq!(
        compile_and_parse("#HAI #IHAZ a #ITIZ v #MKAY #LEMMESEE a b #OIC #KBYE"),
        Err("Syntax error: expected a single-word variable name after #LEMMESEE, but found 'TEXT:a b'."
            .to_string())
    );
}

#[test]
fn comments_and_line_breaks_between_list_items() {
    assert_eq!(
        compile_and_parse("#HAI #MAEK LIST #GIMMEH ITEM a #OIC #OBTW note #TLDR #NEWLINE #GIMMEH ITEM b #OIC #MKAY #KBYE"),
        Ok("<html>\n<ul>\n<li>a</li>\n<!-- note -->\n<br>\n<li>b</li>\n</ul>\n</html>\n".to_string())
    );
    assert_eq!(
        compile_and_parse("#HAI #MAEK LIST #OBTW note #TLDR #GIMMEH ITEM a #OIC #MKAY #KBYE"),
        Err("Syntax error: list must contain at least one #GIMMEH ITEM.".to_string())
    );
    assert_eq!(
        compile_and_parse("#HAI #MAEK LIST #GIMMEH ITEM a #OIC x #MKAY #KBYE"),
        Err("Syntax error: expected '#MKAY', but found 'TEXT:x'.".to_string())
    );
}

#[test]
fn variables_inside_bold_italics_and_links() {
    let src = "#HAI #IHAZ x #ITIZ hi #MKAY #IHAZ u #ITIZ site.org #MKAY \
               #GIMMEH BOLD #LEMMESEE x #OIC #OIC #GIMMEH ITALICS #LEMMESEE x #OIC #OIC \
               #GIMMEH LINX #LEMMESEE u #OIC #OIC #KBYE";
    assert_eq!(
        compile_and_parse(src),
        Ok("<html>\n<b>hi</b> <i>hi</i> <a href=\"site.org\">site.org</a></html>\n".to_string())
    );
    assert_eq!(
        compile_and_parse("#HAI #GIMMEH BOLD #LEMMESEE y #OIC #OIC #KBYE"),
        Err("Static semantic error: variable 'y' was used before it was defined.".to_string())
    );
    assert_eq!(
        compile_and_parse("#HAI #IHAZ x #ITIZ t #MKAY #MAEK HEAD #GIMMEH TITLE #LEMMESEE x #OIC #OIC #MKAY #KBYE"),
        Err("Syntax error: unexpected token '#MAEK HEAD'.".to_string())
    );
    assert_eq!(
        compile_and_parse("#HAI #MAEK HEAD #GIMMEH TITLE #LEMMESEE x #OIC #OIC #MKAY #KBYE"),
        Err("Syntax error: expected title text, but found '#LEMMESEE'.".to_string())
    );
}

#[test]
fn output_accessor_reads_the_html() {
    let mut c = LolcodeCompiler::new();
    assert_eq!(c.compile("#HAI #MAEK PARAGRAF Hi . #MKAY #KBYE"), Ok(()));
    assert_eq!(c.parse(), Ok(()));
    assert_eq!(c.output(), "<html>\n<p>Hi.</p>\n</html>\n");
    assert_eq!(c.output(), &c.output);
}

#[test]
fn every_token_of_a_document_is_accepted() {
    let mut c = LolcodeCompiler::new();
    let src = "#HAI\n#OBTW x\ny #TLDR z\n#MAEK PARAGRAF #GIMMEH BOLD b #OIC #MKAY\n#KBYE";
    assert_eq!(c.compile(src), Ok(()));
    let mut seen = vec![c.current_token()];
    loop {
        let t = c.next_token().expect("every token is recognised");
        if t.is_empty() {
            break;
        }
        seen.push(t);
    }
    assert_eq!(
        seen,
        vec!["#HAI", "#OBTW", "TEXT:x y", "#TLDR", "TEXT:z", "#MAEK PARAGRAF", "#GIMMEH BOLD", "TEXT:b", "#OIC", "#MKAY", "#KBYE"]
    );
}
