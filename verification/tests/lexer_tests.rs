use lolcode::SimpleLexicalAnalyzer;

fn lex(source: &str) -> (Result<(), String>, Vec<String>) {
    let mut lexer = SimpleLexicalAnalyzer::new(source);
    let r = lexer.tokenize(source);
    (r, lexer.tokens)
}

fn strings(v: &[&str]) -> Vec<String> {
    v.iter().map(|s| s.to_string()).collect()
}

#[test]
fn new_lexer_knows_the_standard_annotations() {
    let lexer = SimpleLexicalAnalyzer::new("ignored");
    assert!(lexer.tokens.is_empty());
    assert_eq!(lexer.known_tags.len(), 18);
    assert_eq!(lexer.known_tags[0], "#GIMMEH ITALICS");
    assert_eq!(lexer.known_tags[17], "#OIC");
}

#[test]
fn tokenize_program_frame() {
    let (r, tokens) = lex("#HAI\n#KBYE\n");
    assert_eq!(r, Ok(()));
    assert_eq!(tokens, strings(&["#KBYE", "#HAI"]));
}

#[test]
fn tokenize_text_between_annotations() {
    let (r, tokens) = lex("#HAI hello   #GIMMEH BOLD  world #OIC #KBYE");
    assert_eq!(r, Ok(()));
    assert_eq!(
        tokens,
        strings(&["#KBYE", "#OIC", "TEXT:world", "#GIMMEH BOLD", "TEXT:hello", "#HAI"])
    );
}

#[test]
fn tokenize_ignores_ascii_case_of_annotations() {
    let (r, tokens) = lex("#hai\n#Maek Paragraf hi #mkay\n#kByE");
    assert_eq!(r, Ok(()));
    assert_eq!(tokens, strings(&["#KBYE", "#MKAY", "TEXT:hi", "#MAEK PARAGRAF", "#HAI"]));
}

#[test]
fn tokenize_skips_blank_lines_and_trims() {
    let (r, tokens) = lex("\n   \r\n\t#HAI\r\n  some text  \r\n#KBYE");
    assert_eq!(r, Ok(()));
    assert_eq!(tokens, strings(&["#KBYE", "TEXT:some text", "#HAI"]));
}

#[test]
fn tokenize_unknown_annotation_is_an_error() {
    let (r, tokens) = lex("#HAI\n#FOO bar\n#KBYE");
    assert_eq!(
        r,
        Err("Lexical error: unknown annotation starting with '#FOO bar'".to_string())
    );
    assert_eq!(tokens, strings(&["#HAI"]));
}

#[test]
fn tokenize_markup_character_is_an_error() {
    let (r, tokens) = lex("#HAI\na < b\n#KBYE");
    assert_eq!(
        r,
        Err("Lexical error: invalid character found in line 'a < b'".to_string())
    );
    assert_eq!(tokens, strings(&["#HAI"]));
    let (r2, _) = lex("x & y");
    assert_eq!(
        r2,
        Err("Lexical error: invalid character found in line 'x & y'".to_string())
    );
    let (r3, _) = lex("   b > c   ");
    assert_eq!(
        r3,
        Err("Lexical error: invalid character found in line 'b > c'".to_string())
    );
}

#[test]
fn tokenize_single_line_comment() {
    let (r, tokens) = lex("#OBTW  a note  #tldr after it");
    assert_eq!(r, Ok(()));
    assert_eq!(tokens, strings(&["TEXT:after it", "#TLDR", "TEXT:a note", "#OBTW"]));
}

#[test]
fn tokenize_empty_comment() {
    let (r, tokens) = lex("#OBTW#TLDR");
    assert_eq!(r, Ok(()));
    assert_eq!(tokens, strings(&["#TLDR", "#OBTW"]));
}

#[test]
fn tokenize_multi_line_comment_joins_its_lines() {
    let (r, tokens) = lex("#OBTW first\n\n  second line \nthird #TLDR #KBYE");
    assert_eq!(r, Ok(()));
    assert_eq!(
        tokens,
        strings(&["#KBYE", "#TLDR", "TEXT:first second line third", "#OBTW"])
    );
}

#[test]
fn tokenize_comment_lines_may_hold_markup() {
    let (r, tokens) = lex("#OBTW\n<b> & </b>\n#TLDR");
    assert_eq!(r, Ok(()));
    assert_eq!(tokens, strings(&["#TLDR", "TEXT:<b> & </b>", "#OBTW"]));
}

#[test]
fn tokenize_unclosed_comment_is_an_error() {
    let (r, tokens) = lex("#HAI\n#OBTW never\nclosed");
    assert_eq!(
        r,
        Err("Syntax error: comment started with #OBTW but missing #TLDR.".to_string())
    );
    assert_eq!(tokens, strings(&["#HAI", "#OBTW"]));
}

#[test]
fn tokenize_error_after_comment_keeps_tokens() {
    let (r, tokens) = lex("#OBTW c #TLDR #NOPE");
    assert_eq!(
        r,
        Err("Lexical error: unknown annotation starting with '#NOPE'".to_string())
    );
    assert_eq!(tokens, strings(&["#OBTW", "TEXT:c", "#TLDR"]));
}

#[test]
fn tokenize_replaces_previous_tokens() {
    let mut lexer = SimpleLexicalAnalyzer::new("");
    lexer.tokens.push("old".to_string());
    assert_eq!(lexer.tokenize("#HAI"), Ok(()));
    assert_eq!(lexer.tokens, strings(&["#HAI"]));
}

#[test]
fn tokenize_non_ascii_text() {
    let (r, tokens) = lex("#HAI\ncafé au lait\n\u{3000}naïve\u{3000}\n#KBYE");
    assert_eq!(r, Ok(()));
    assert_eq!(tokens, strings(&["#KBYE", "TEXT:naïve", "TEXT:café au lait", "#HAI"]));
}

#[test]
fn every_source_lexes_non_ascii_lines_included() {
    let (r, tokens) = lex("abcdé");
    assert_eq!(r, Ok(()));
    assert_eq!(tokens, strings(&["TEXT:abcdé"]));
    let (r, tokens) = lex("#HAI\nStraße ist lang\n日本語\n#KBYE");
    assert_eq!(r, Ok(()));
    assert_eq!(tokens, strings(&["#KBYE", "TEXT:日本語", "TEXT:Straße ist lang", "#HAI"]));
    let (r, tokens) = lex("#HAIé");
    assert_eq!(r, Ok(()));
    assert_eq!(tokens, strings(&["TEXT:é", "#HAI"]));
    let (r, _) = lex("#GIMMEH ITALICSé #ÉCOLE");
    assert_eq!(r, Err("Lexical error: unknown annotation starting with '#ÉCOLE'".to_string()));
    let lexer = SimpleLexicalAnalyzer::new("");
    for src in ["abcdé", "日本語", "#OBTWé #TLDR", "#ab", "é#"] {
        assert!(!lexer.faults_on(src));
    }
}

#[test]
fn faults_on_an_empty_annotation() {
    let mut lexer = SimpleLexicalAnalyzer::new("");
    lexer.known_tags = vec!["".to_string()];
    assert!(lexer.faults_on("#X"));
    assert!(!lexer.faults_on("plain text"));
}

#[test]
fn standard_annotations_never_fault() {
    let lexer = SimpleLexicalAnalyzer::new("");
    for src in ["#HAI", "#OBTW x", "#FOO", "a<b", "#OBTW\n#TLDR\n#KBYE", "#GIMMEH", "#"] {
        assert!(!lexer.faults_on(src));
    }
}

#[test]
fn joined_sources_lex_in_sequence() {
    let cases = [
        ("#HAI hello\r", "#OBTW c\nd #TLDR #KBYE"),
        ("#HAI\n", "#MAEK PARAGRAF x #MKAY"),
        ("", "#KBYE"),
        ("#OBTW a #TLDR", ""),
    ];
    for (a, b) in cases {
        let (ra, ta) = lex(a);
        let (rb, tb) = lex(b);
        assert_eq!(ra, Ok(()));
        assert_eq!(rb, Ok(()));
        let (r, t) = lex(&format!("{}\n{}", a, b));
        assert_eq!(r, Ok(()));
        let mut expected = tb.clone();
        expected.extend(ta.clone());
        assert_eq!(t, expected);
    }
}
