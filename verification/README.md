# lolcode

A compiler from LOLCODE Markdown to HTML, written in Verus and verified.

A document starts with `#HAI` and ends with `#KBYE`. Between them stand
comments (`#OBTW … #TLDR`), an optional head with a title
(`#MAEK HEAD #GIMMEH TITLE … #OIC #MKAY`, right after `#HAI` and any
comments), paragraphs (`#MAEK PARAGRAF … #MKAY`), lists
(`#MAEK LIST #GIMMEH ITEM … #OIC … #MKAY`), bold and italic text, links,
line breaks (`#NEWLINE`), variable definitions
(`#IHAZ name #ITIZ value #MKAY`) and variable uses (`#LEMMESEE name #OIC`).
Annotations are matched ignoring ASCII case.

## Layout

- `src/text.rs`: string operations (trimming, case-insensitive search,
  replacement, joining), each stated over `Seq<char>` and implemented over
  vectors of characters.
- `src/lexer.rs`: `SimpleLexicalAnalyzer`, which turns a source text into
  annotation tokens and `TEXT:` tokens. `lex_source` says what it produces:
  the tokens, or the tokens before the first lexical error and its message.
- `src/compiler.rs`: `LolcodeCompiler` and the `Compiler` trait. Each grammar
  rule has a spec function over the parser state `PState` (tokens left,
  current token, variable scopes, HTML so far), and each parsing function
  is proved to do exactly what its rule says, errors included.
- `src/laws.rs`: properties of the whole: the lexer's tokens are all
  accepted by the parser, tokens are read in source order, a variable use
  gives what its definition bound, paragraph bindings are local, a document
  that parses is wrapped in `<html>` … `</html>`, every source text lexes,
  and two texts joined by a line break lex in sequence.
- `app/main.rs`: the command line: reads a `.lol` file and writes the
  `.html` file next to it.
- `tests/`: tests of the lexer and of the compiler on concrete documents.
