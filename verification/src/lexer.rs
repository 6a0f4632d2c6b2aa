//! The lexer: it turns source text into annotation tokens and `TEXT:` tokens.
use vstd::prelude::*;
use vstd::string::StringExecFns;
use crate::text::{
    eq_ic, find_ic, find_ic_exec, index_of_exec, index_of_from, join,
    lemma_trim_start_len, lemma_views_push, lemma_find_ic_from, contains_char, matches_ic_exec, push_range, trim, trim_bounds,
    trim_start, vec_views, views, chars_of, copy_range, join_exec, str_eq, matches_exact,
};

verus! {

// ---------------------------------------------------------------- model

/// The annotations that the lexer knows, in the order in which it tries them.
pub open spec fn standard_tags() -> Seq<Seq<char>> {
    seq![
        "#GIMMEH ITALICS"@,
        "#GIMMEH TITLE"@,
        "#MAEK PARAGRAF"@,
        "#GIMMEH BOLD"@,
        "#GIMMEH ITEM"@,
        "#GIMMEH LINX"@,
        "#MAEK HEAD"@,
        "#MAEK LIST"@,
        "#LEMMESEE"@,
        "#NEWLINE"@,
        "#OBTW"@,
        "#TLDR"@,
        "#KBYE"@,
        "#MKAY"@,
        "#IHAZ"@,
        "#ITIZ"@,
        "#HAI"@,
        "#OIC"@,
    ]
}

/// The token that carries a piece of text.
pub open spec fn text_token(t: Seq<char>) -> Seq<char> {
    "TEXT:"@ + t
}

/// The text token for `t`, or nothing when `t` is empty.
pub open spec fn text_tokens(t: Seq<char>) -> Seq<Seq<char>> {
    if t.len() > 0 {
        seq![text_token(t)]
    } else {
        Seq::empty()
    }
}

/// `s` as a one-element sequence, or nothing when `s` is empty.
pub open spec fn nonempty(s: Seq<char>) -> Seq<Seq<char>> {
    if s.len() > 0 {
        seq![s]
    } else {
        Seq::empty()
    }
}

/// A token that the lexer produces: a known annotation or a text token.
pub open spec fn recognized(tags: Seq<Seq<char>>, s: Seq<char>) -> bool {
    tags.contains(s) || is_text(s)
}

/// The token is a text token (it starts with `TEXT:`).
pub open spec fn is_text(s: Seq<char>) -> bool {
    s.len() >= 5 && s.take(5) == "TEXT:"@
}

/// `s` starts with `p`, ignoring ASCII case.
pub open spec fn starts_with_ic(s: Seq<char>, p: Seq<char>) -> bool {
    p.len() <= s.len() && eq_ic(s.take(p.len() as int), p)
}

/// What lexing a piece of source leads to: the tokens produced, in order;
/// the tokens produced before an error and its message; or no end, where an
/// empty annotation matches and the lexer would make no progress.
pub enum Lexed {
    Done(Seq<Seq<char>>),
    Failed(Seq<Seq<char>>, Seq<char>),
    Stuck,
}

/// The tokens `pre`, followed by what `r` produces.
pub open spec fn prepend(pre: Seq<Seq<char>>, r: Lexed) -> Lexed {
    match r {
        Lexed::Done(t) => Lexed::Done(pre + t),
        Lexed::Failed(t, m) => Lexed::Failed(pre + t, m),
        Lexed::Stuck => Lexed::Stuck,
    }
}

/// `a`, and when it succeeds, `b` after it.
pub open spec fn then(a: Lexed, b: Lexed) -> Lexed {
    match a {
        Lexed::Done(t) => prepend(t, b),
        _ => a,
    }
}

/// The outcome of trying the known annotations, in order, at the start of `s`.
pub enum Scan {
    Hit(int),
    Miss,
}

/// Tries the annotations `tags[j..]` at the start of `s`: the first that
/// matches, ignoring ASCII case.
pub open spec fn scan_tags(tags: Seq<Seq<char>>, s: Seq<char>, j: int) -> Scan
    decreases tags.len() - j,
{
    if j < 0 || j >= tags.len() {
        Scan::Miss
    } else if starts_with_ic(s, tags[j]) {
        Scan::Hit(j)
    } else {
        scan_tags(tags, s, j + 1)
    }
}

pub open spec fn unknown_annotation_msg(rest: Seq<char>) -> Seq<char> {
    "Lexical error: unknown annotation starting with '"@ + rest + "'"@
}

pub open spec fn invalid_character_msg(line: Seq<char>) -> Seq<char> {
    "Lexical error: invalid character found in line '"@ + line + "'"@
}

pub open spec fn missing_tldr_msg() -> Seq<char> {
    "Syntax error: comment started with #OBTW but missing #TLDR."@
}

/// Lexing one line (or what is left of it) that holds no comment opener:
/// each known annotation becomes its token, the text between annotations
/// becomes a text token, and `#` that starts no known annotation is an error.
pub open spec fn lex_line(tags: Seq<Seq<char>>, rest: Seq<char>) -> Lexed
    decreases rest.len(),
{
    if rest.len() == 0 {
        Lexed::Done(Seq::empty())
    } else if rest[0] == '#' {
        match scan_tags(tags, rest, 0) {
            Scan::Miss => Lexed::Failed(Seq::empty(), unknown_annotation_msg(rest)),
            Scan::Hit(j) => {
                if tags[j].len() == 0 {
                    Lexed::Stuck
                } else {
                    proof {
                        lemma_scan_tags(tags, rest, 0);
                        lemma_trim_start_len(rest.skip(tags[j].len() as int));
                    }
                    prepend(
                        seq![tags[j]],
                        lex_line(tags, trim_start(rest.skip(tags[j].len() as int))),
                    )
                }
            },
        }
    } else {
        let k = match index_of_from(rest, '#', 0) {
            Some(k) => k,
            None => rest.len() as int,
        };
        proof {
            lemma_index_of_from(rest, '#', 0);
            lemma_trim_start_len(rest.skip(k));
        }
        prepend(text_tokens(trim(rest.take(k))), lex_line(tags, trim_start(rest.skip(k))))
    }
}

/// `l` without a carriage return at its end.
pub open spec fn strip_cr(l: Seq<char>) -> Seq<char> {
    if l.len() > 0 && l.last() == '\r' {
        l.drop_last()
    } else {
        l
    }
}

/// The lines of `s[start..]`, split at `\n` (`str::lines`): a line ending
/// may be `\r\n`, and the last line ending is optional.
pub open spec fn lines_from(s: Seq<char>, start: int) -> Seq<Seq<char>>
    decreases s.len() - start,
{
    if start < 0 || start >= s.len() {
        Seq::empty()
    } else {
        match index_of_from(s, '\n', start) {
            None => seq![s.subrange(start, s.len() as int)],
            Some(k) => {
                proof {
                    lemma_index_of_from(s, '\n', start);
                }
                seq![strip_cr(s.subrange(start, k))] + lines_from(s, k + 1)
            },
        }
    }
}

/// The lines of a source text.
pub open spec fn source_lines(s: Seq<char>) -> Seq<Seq<char>> {
    lines_from(s, 0)
}

/// The first line at or after `j` that holds `#TLDR`, ignoring ASCII case.
pub open spec fn tldr_line(lines: Seq<Seq<char>>, j: int) -> Option<int>
    decreases lines.len() - j,
{
    if j < 0 || j >= lines.len() {
        None
    } else if find_ic(trim(lines[j]), "#TLDR"@) is Some {
        Some(j)
    } else {
        tldr_line(lines, j + 1)
    }
}

/// The non-empty trimmed lines among `lines[from..to]`.
pub open spec fn comment_parts(lines: Seq<Seq<char>>, from: int, to: int) -> Seq<Seq<char>>
    decreases to - from,
{
    if from >= to {
        Seq::empty()
    } else {
        nonempty(trim(lines[from])) + comment_parts(lines, from + 1, to)
    }
}

/// The tokens of a comment: its opener, its text when there is some, its closer.
pub open spec fn comment_tokens(body: Seq<char>) -> Seq<Seq<char>> {
    seq!["#OBTW"@] + text_tokens(body) + seq!["#TLDR"@]
}

/// Lexing `lines[i..]`. Empty lines are skipped; a line that holds `<`, `>`
/// or `&` is an error; a line that starts with `#OBTW` opens a comment, which
/// runs to the first `#TLDR` on that line or a later one, and whose text is
/// made of the trimmed pieces joined by single spaces; what follows `#TLDR`
/// on its line is lexed as a line; any other line is lexed by `lex_line`.
pub open spec fn lex_lines(tags: Seq<Seq<char>>, lines: Seq<Seq<char>>, i: int) -> Lexed
    decreases lines.len() - i,
{
    if i < 0 || i >= lines.len() {
        Lexed::Done(Seq::empty())
    } else {
        let line = trim(lines[i]);
        if line.len() == 0 {
            lex_lines(tags, lines, i + 1)
        } else if line.contains('<') || line.contains('>') || line.contains('&') {
            Lexed::Failed(Seq::empty(), invalid_character_msg(line))
        } else if starts_with_ic(line, "#OBTW"@) {
            let rest = trim(line.skip(5));
            match find_ic(rest, "#TLDR"@) {
                Some(pos) => prepend(
                    comment_tokens(trim(rest.take(pos))),
                    then(lex_line(tags, trim(rest.skip(pos + 5))), lex_lines(tags, lines, i + 1)),
                ),
                None => match tldr_line(lines, i + 1) {
                    None => Lexed::Failed(seq!["#OBTW"@], missing_tldr_msg()),
                    Some(j) => {
                        proof {
                            lemma_tldr_line(lines, i + 1);
                        }
                        let next = trim(lines[j]);
                        let pos = find_ic(next, "#TLDR"@)->0;
                        let parts = nonempty(rest) + comment_parts(lines, i + 1, j) + nonempty(
                            trim(next.take(pos)),
                        );
                        prepend(
                            comment_tokens(trim(join(parts, " "@))),
                            then(
                                lex_line(tags, trim(next.skip(pos + 5))),
                                lex_lines(tags, lines, j + 1),
                            ),
                        )
                    },
                },
            }
        } else {
            then(lex_line(tags, line), lex_lines(tags, lines, i + 1))
        }
    }
}

/// Lexing a whole source text with the given annotations.
pub open spec fn lex_source(tags: Seq<Seq<char>>, src: Seq<char>) -> Lexed {
    lex_lines(tags, source_lines(src), 0)
}

// ---------------------------------------------------------------- lemmas

pub proof fn lemma_index_of_from(s: Seq<char>, c: char, i: int)
    ensures
        index_of_from(s, c, i) matches Some(k) ==> {
            &&& 0 <= i <= k < s.len()
            &&& s[k] == c
            &&& forall|m: int| i <= m < k ==> s[m] != c
        },
        index_of_from(s, c, i) is None ==> forall|m: int| 0 <= i <= m < s.len() ==> s[m] != c,
    decreases s.len() - i,
{
    if 0 <= i < s.len() && s[i] != c {
        lemma_index_of_from(s, c, i + 1);
    }
}

pub proof fn lemma_scan_tags(tags: Seq<Seq<char>>, s: Seq<char>, j: int)
    ensures
        scan_tags(tags, s, j) matches Scan::Hit(k) ==> {
            &&& 0 <= j <= k < tags.len()
            &&& starts_with_ic(s, tags[k])
        },
    decreases tags.len() - j,
{
    if 0 <= j < tags.len() && !starts_with_ic(s, tags[j]) {
        lemma_scan_tags(tags, s, j + 1);
    }
}

pub proof fn lemma_tldr_line(lines: Seq<Seq<char>>, j: int)
    ensures
        tldr_line(lines, j) matches Some(k) ==> {
            &&& 0 <= j <= k < lines.len()
            &&& find_ic(trim(lines[k]), "#TLDR"@) is Some
        },
    decreases lines.len() - j,
{
    if 0 <= j < lines.len() && find_ic(trim(lines[j]), "#TLDR"@) is None {
        lemma_tldr_line(lines, j + 1);
    }
}

pub proof fn lemma_prepend_assoc(a: Seq<Seq<char>>, b: Seq<Seq<char>>, r: Lexed)
    ensures
        prepend(a, prepend(b, r)) == prepend(a + b, r),
{
    match r {
        Lexed::Done(t) => {
            assert(a + (b + t) =~= (a + b) + t);
        },
        Lexed::Failed(t, m) => {
            assert(a + (b + t) =~= (a + b) + t);
        },
        Lexed::Stuck => {},
    }
}

pub proof fn lemma_prepend_empty(r: Lexed)
    ensures
        prepend(Seq::empty(), r) == r,
{
    match r {
        Lexed::Done(t) => {
            assert(Seq::<Seq<char>>::empty() + t =~= t);
        },
        Lexed::Failed(t, m) => {
            assert(Seq::<Seq<char>>::empty() + t =~= t);
        },
        Lexed::Stuck => {},
    }
}

} // verus!

verus! {

// ---------------------------------------------------------------- the lexer

/// The lexer: the tokens it has produced, and the annotations it knows.
pub struct SimpleLexicalAnalyzer {
    /// The tokens: after a successful `tokenize`, the last token of the source comes first.
    pub tokens: Vec<String>,
    /// The annotations that the lexer recognises.
    pub known_tags: Vec<String>,
}

/// The outcome of trying the known annotations at a position.
enum TagMatch {
    Hit(usize),
    Miss,
}

/// The outcome of a lexing step.
enum LexStep {
    Go,
    Error(String),
    Endless,
}

/// The lexing step `r`, which turned the tokens `before` into `after`, did what `l` describes.
spec fn reflects(before: Seq<Seq<char>>, after: Seq<Seq<char>>, r: LexStep, l: Lexed) -> bool {
    match l {
        Lexed::Done(t) => r is Go && after == before + t,
        Lexed::Failed(t, m) => r matches LexStep::Error(e) && e@ == m && after == before + t,
        Lexed::Stuck => r is Endless,
    }
}

/// The pieces of `s` that the ranges delimit.
spec fn range_views(s: Seq<char>, r: Seq<(usize, usize)>) -> Seq<Seq<char>> {
    Seq::new(r.len(), |k: int| s.subrange(r[k].0 as int, r[k].1 as int))
}

/// Each range lies within `s`.
spec fn ranges_ok(s: Seq<char>, r: Seq<(usize, usize)>) -> bool {
    forall|k: int| 0 <= k < r.len() ==> r[k].0 <= #[trigger] r[k].1 <= s.len()
}

/// The ranges of the lines of `s` (`str::lines`).
fn line_ranges(s: &Vec<char>) -> (r: Vec<(usize, usize)>)
    ensures
        ranges_ok(s@, r@),
        range_views(s@, r@) == source_lines(s@),
{
    let mut r: Vec<(usize, usize)> = Vec::new();
    let n = s.len();
    let mut start: usize = 0;
    while start < n
        invariant
            n == s@.len(),
            0 <= start <= n,
            ranges_ok(s@, r@),
            range_views(s@, r@) + lines_from(s@, start as int) == lines_from(s@, 0),
        decreases n - start,
    {
        let ghost old_r = r@;
        proof {
            lemma_index_of_from(s@, '\n', start as int);
        }
        match index_of_exec(s, '\n', start) {
            None => {
                r.push((start, n));
                proof {
                    assert(range_views(s@, r@) =~= range_views(s@, old_r) + lines_from(s@, start as int));
                }
                start = n;
            },
            Some(k) => {
                let e = if k > start && s[k - 1] == '\r' {
                    k - 1
                } else {
                    k
                };
                r.push((start, e));
                proof {
                    let l = s@.subrange(start as int, k as int);
                    assert(strip_cr(l) =~= s@.subrange(start as int, e as int));
                    assert(range_views(s@, r@) + lines_from(s@, k + 1) =~= range_views(s@, old_r)
                        + lines_from(s@, start as int));
                }
                start = k + 1;
            },
        }
    }
    assert(range_views(s@, r@) + lines_from(s@, start as int) =~= range_views(s@, r@));
    r
}

/// The string `TEXT:` followed by the characters `v[lo..hi]`.
fn text_string(v: &Vec<char>, lo: usize, hi: usize) -> (s: String)
    requires
        lo <= hi <= v@.len(),
    ensures
        s@ == text_token(v@.subrange(lo as int, hi as int)),
{
    let mut s = String::from_str("TEXT:");
    push_range(&mut s, v, lo, hi);
    s
}

impl SimpleLexicalAnalyzer {
    /// A lexer with no tokens that knows the standard annotations.
    pub fn new(_source: &str) -> (r: Self)
        ensures
            r.tokens@.len() == 0,
            views(r.known_tags@) == standard_tags(),
    {
        let known_tags = vec![
            String::from_str("#GIMMEH ITALICS"),
            String::from_str("#GIMMEH TITLE"),
            String::from_str("#MAEK PARAGRAF"),
            String::from_str("#GIMMEH BOLD"),
            String::from_str("#GIMMEH ITEM"),
            String::from_str("#GIMMEH LINX"),
            String::from_str("#MAEK HEAD"),
            String::from_str("#MAEK LIST"),
            String::from_str("#LEMMESEE"),
            String::from_str("#NEWLINE"),
            String::from_str("#OBTW"),
            String::from_str("#TLDR"),
            String::from_str("#KBYE"),
            String::from_str("#MKAY"),
            String::from_str("#IHAZ"),
            String::from_str("#ITIZ"),
            String::from_str("#HAI"),
            String::from_str("#OIC"),
        ];
        assert(views(known_tags@) =~= standard_tags());
        SimpleLexicalAnalyzer { tokens: Vec::new(), known_tags }
    }

    /// The characters of each known annotation.
    fn tag_chars(&self) -> (r: Vec<Vec<char>>)
        ensures
            vec_views(r@) == views(self.known_tags@),
    {
        let mut r: Vec<Vec<char>> = Vec::new();
        let mut i: usize = 0;
        while i < self.known_tags.len()
            invariant
                0 <= i <= self.known_tags@.len(),
                vec_views(r@) == views(self.known_tags@).take(i as int),
            decreases self.known_tags@.len() - i,
        {
            let c = chars_of(self.known_tags[i].as_str());
            let ghost old_r = r@;
            r.push(c);
            assert(vec_views(r@) =~= vec_views(old_r).push(c@));
            assert(views(self.known_tags@).take(i + 1) =~= views(self.known_tags@).take(i as int).push(
                self.known_tags@[i as int]@,
            ));
            i += 1;
        }
        assert(views(self.known_tags@).take(i as int) =~= views(self.known_tags@));
        r
    }

    /// Whether `s[pos..]` starts with `pat`, ignoring ASCII case.
    fn starts_with_ignore_case(s: &Vec<char>, pos: usize, pat: &Vec<char>) -> (b: bool)
        requires
            pos <= s@.len(),
        ensures
            b == starts_with_ic(s@.skip(pos as int), pat@),
    {
        let b = matches_ic_exec(s, pat, pos);
        proof {
            if pos + pat@.len() <= s@.len() {
                assert(s@.subrange(pos as int, pos + pat@.len()) =~= s@.skip(pos as int).take(
                    pat@.len() as int,
                ));
            }
        }
        b
    }

    /// The position of the first occurrence of `pat` in `s`, ignoring ASCII case.
    fn find_ignore_case(s: &Vec<char>, pat: &Vec<char>) -> (r: Option<usize>)
        ensures
            r matches Some(i) ==> find_ic(s@, pat@) == Some(i as int),
            r is None ==> find_ic(s@, pat@) is None,
    {
        find_ic_exec(s, pat)
    }

    /// Tries the known annotations, in order, at position `pos` of `s`.
    fn match_known_tag(tags: &Vec<Vec<char>>, s: &Vec<char>, pos: usize) -> (r: TagMatch)
        requires
            pos <= s@.len(),
        ensures
            match scan_tags(vec_views(tags@), s@.skip(pos as int), 0) {
                Scan::Miss => r is Miss,
                Scan::Hit(j) => r matches TagMatch::Hit(k) && k == j,
            },
    {
        let ghost tv = vec_views(tags@);
        let ghost rest = s@.skip(pos as int);
        let mut j: usize = 0;
        while j < tags.len()
            invariant
                tv == vec_views(tags@),
                rest == s@.skip(pos as int),
                pos <= s@.len(),
                0 <= j <= tags@.len(),
                scan_tags(tv, rest, 0) == scan_tags(tv, rest, j as int),
            decreases tags@.len() - j,
        {
            if Self::starts_with_ignore_case(s, pos, &tags[j]) {
                return TagMatch::Hit(j);
            }
            j += 1;
        }
        TagMatch::Miss
    }

    /// Pushes the text token of `trim(v[lo..hi])`, when that text is not empty.
    fn push_text_if_any(&mut self, v: &Vec<char>, lo: usize, hi: usize)
        requires
            lo <= hi <= v@.len(),
        ensures
            final(self).known_tags == old(self).known_tags,
            views(final(self).tokens@) == views(old(self).tokens@) + text_tokens(
                trim(v@.subrange(lo as int, hi as int)),
            ),
    {
        let (a, b) = trim_bounds(v, lo, hi);
        if a < b {
            let t = text_string(v, a, b);
            self.tokens.push(t);
            proof {
                lemma_views_push(old(self).tokens@, t);
                assert(views(self.tokens@) =~= views(old(self).tokens@) + text_tokens(
                    trim(v@.subrange(lo as int, hi as int)),
                ));
            }
        } else {
            assert(views(self.tokens@) =~= views(old(self).tokens@) + text_tokens(
                trim(v@.subrange(lo as int, hi as int)),
            ));
        }
    }

    /// Lexes one line that holds no comment opener.
    fn tokenize_regular_line(&mut self, tags: &Vec<Vec<char>>, line: &Vec<char>) -> (r: LexStep)
        requires
            vec_views(tags@) == views(old(self).known_tags@),
        ensures
            final(self).known_tags == old(self).known_tags,
            reflects(
                views(old(self).tokens@),
                views(final(self).tokens@),
                r,
                lex_line(views(old(self).known_tags@), line@),
            ),
    {
        let ghost tv = vec_views(tags@);
        let ghost base = views(self.tokens@);
        let ghost mut produced: Seq<Seq<char>> = Seq::empty();
        let n = line.len();
        let mut pos: usize = 0;
        proof {
            assert(line@.skip(0) =~= line@);
            lemma_prepend_empty(lex_line(tv, line@));
        }
        while pos < n
            invariant
                n == line@.len(),
                tv == vec_views(tags@),
                tv == views(self.known_tags@),
                self.known_tags == old(self).known_tags,
                base == views(old(self).tokens@),
                0 <= pos <= n,
                views(self.tokens@) == base + produced,
                prepend(produced, lex_line(tv, line@.skip(pos as int))) == lex_line(tv, line@),
            decreases n - pos,
        {
            let ghost rest = line@.skip(pos as int);
            if line[pos] == '#' {
                match Self::match_known_tag(tags, line, pos) {
                    TagMatch::Miss => {
                        let mut e = String::from_str("Lexical error: unknown annotation starting with '");
                        push_range(&mut e, line, pos, n);
                        e.append("'");
                        proof {
                            assert(line@.subrange(pos as int, n as int) =~= rest);
                            assert(produced + Seq::<Seq<char>>::empty() =~= produced);
                        }
                        return LexStep::Error(e);
                    },
                    TagMatch::Hit(j) => {
                        proof {
                            lemma_scan_tags(tv, rest, 0);
                        }
                        let tlen = tags[j].len();
                        if tlen == 0 {
                            return LexStep::Endless;
                        }
                        let t = self.known_tags[j].clone();
                        let ghost before_toks = self.tokens@;
                        self.tokens.push(t);
                        let (a, _b) = trim_bounds(line, pos + tlen, n);
                        proof {
                            lemma_views_push(before_toks, t);
                            assert(t@ == tv[j as int]);
                            assert(rest.skip(tlen as int) =~= line@.subrange(pos + tlen, n as int));
                            assert(line@.skip(a as int) =~= line@.subrange(a as int, n as int));
                            lemma_prepend_assoc(
                                produced,
                                seq![tv[j as int]],
                                lex_line(tv, line@.skip(a as int)),
                            );
                            produced = produced + seq![tv[j as int]];
                            assert(views(self.tokens@) =~= base + produced);
                        }
                        pos = a;
                    },
                }
            } else {
                proof {
                    lemma_index_of_shift(line@, pos as int, '#');
                    lemma_index_of_from(line@, '#', pos as int);
                }
                let k = match index_of_exec(line, '#', pos) {
                    Some(k) => k,
                    None => n,
                };
                let ghost before = views(self.tokens@);
                self.push_text_if_any(line, pos, k);
                let (a, _b) = trim_bounds(line, k, n);
                proof {
                    assert(rest.take(k - pos) =~= line@.subrange(pos as int, k as int));
                    assert(rest.skip(k - pos) =~= line@.subrange(k as int, n as int));
                    assert(line@.skip(a as int) =~= line@.subrange(a as int, n as int));
                    let tt = text_tokens(trim(line@.subrange(pos as int, k as int)));
                    lemma_prepend_assoc(produced, tt, lex_line(tv, line@.skip(a as int)));
                    produced = produced + tt;
                    assert(views(self.tokens@) =~= base + produced);
                }
                pos = a;
            }
        }
        proof {
            assert(line@.skip(pos as int) =~= Seq::<char>::empty());
        }
        LexStep::Go
    }
}

pub proof fn lemma_index_of_shift(s: Seq<char>, p: int, c: char)
    requires
        0 <= p <= s.len(),
    ensures
        match index_of_from(s, c, p) {
            Some(k) => index_of_from(s.skip(p), c, 0) == Some(k - p),
            None => index_of_from(s.skip(p), c, 0) is None,
        },
{
    lemma_index_of_shift_from(s, p, c, 0);
}

proof fn lemma_index_of_shift_from(s: Seq<char>, p: int, c: char, i: int)
    requires
        0 <= p <= s.len(),
        0 <= i,
    ensures
        match index_of_from(s, c, p + i) {
            Some(k) => index_of_from(s.skip(p), c, i) == Some(k - p),
            None => index_of_from(s.skip(p), c, i) is None,
        },
    decreases s.len() - p - i,
{
    if p + i < s.len() {
        assert(s.skip(p)[i] == s[p + i]);
        lemma_index_of_shift_from(s, p, c, i + 1);
    }
}


/// The trimmed line `k` of `src`.
fn trimmed_line(src: &Vec<char>, ranges: &Vec<(usize, usize)>, k: usize) -> (r: Vec<char>)
    requires
        ranges_ok(src@, ranges@),
        k < ranges@.len(),
    ensures
        r@ == trim(range_views(src@, ranges@)[k as int]),
{
    let (s, e) = ranges[k];
    assert(s <= e <= src@.len());
    let (a, b) = trim_bounds(src, s, e);
    copy_range(src, a, b)
}

/// The first line at or after `from` that holds `#TLDR`.
fn find_comment_end(src: &Vec<char>, ranges: &Vec<(usize, usize)>, tldr: &Vec<char>, from: usize) -> (r: Option<usize>)
    requires
        ranges_ok(src@, ranges@),
        tldr@ == "#TLDR"@,
    ensures
        r matches Some(j) ==> tldr_line(range_views(src@, ranges@), from as int) == Some(j as int),
        r is None ==> tldr_line(range_views(src@, ranges@), from as int) is None,
{
    let ghost lines = range_views(src@, ranges@);
    let mut k = from;
    while k < ranges.len()
        invariant
            lines == range_views(src@, ranges@),
            ranges_ok(src@, ranges@),
            tldr@ == "#TLDR"@,
            from <= k,
            tldr_line(lines, from as int) == tldr_line(lines, k as int),
        decreases ranges@.len() - k,
    {
        let l = trimmed_line(src, ranges, k);
        if find_ic_exec(&l, tldr).is_some() {
            return Some(k);
        }
        k += 1;
    }
    None
}

/// The non-empty trimmed lines among the lines `from..to`.
fn comment_parts_exec(src: &Vec<char>, ranges: &Vec<(usize, usize)>, from: usize, to: usize) -> (r: Vec<Vec<char>>)
    requires
        ranges_ok(src@, ranges@),
        from <= to <= ranges@.len(),
    ensures
        vec_views(r@) == comment_parts(range_views(src@, ranges@), from as int, to as int),
{
    let ghost lines = range_views(src@, ranges@);
    let mut r: Vec<Vec<char>> = Vec::new();
    let mut k = from;
    assert(vec_views(r@) + comment_parts(lines, k as int, to as int) =~= comment_parts(lines, from as int, to as int));
    while k < to
        invariant
            lines == range_views(src@, ranges@),
            ranges_ok(src@, ranges@),
            from <= k <= to <= ranges@.len(),
            vec_views(r@) + comment_parts(lines, k as int, to as int) == comment_parts(lines, from as int, to as int),
        decreases to - k,
    {
        let l = trimmed_line(src, ranges, k);
        let ghost old_r = r@;
        if l.len() > 0 {
            r.push(l);
        }
        assert(vec_views(r@) =~= vec_views(old_r) + nonempty(l@));
        assert(vec_views(r@) + comment_parts(lines, k + 1, to as int) =~= vec_views(old_r)
            + comment_parts(lines, k as int, to as int));
        k += 1;
    }
    assert(vec_views(r@) + comment_parts(lines, k as int, to as int) =~= vec_views(r@));
    r
}

impl SimpleLexicalAnalyzer {
    /// Lexes the rest of a comment line `line` (line `i`, which starts with `#OBTW`):
    /// the comment, and when it closes on a later line, the lines up to there.
    /// Returns the line at which lexing goes on.
    fn lex_comment(
        &mut self,
        tags: &Vec<Vec<char>>,
        tldr: &Vec<char>,
        src: &Vec<char>,
        ranges: &Vec<(usize, usize)>,
        i: usize,
        line: &Vec<char>,
    ) -> (r: (LexStep, usize))
        requires
            vec_views(tags@) == views(old(self).known_tags@),
            tldr@ == "#TLDR"@,
            ranges_ok(src@, ranges@),
            i < ranges@.len(),
            line@ == trim(range_views(src@, ranges@)[i as int]),
            line@.len() > 0,
            !(line@.contains('<') || line@.contains('>') || line@.contains('&')),
            starts_with_ic(line@, "#OBTW"@),
        ensures
            final(self).known_tags == old(self).known_tags,
            r.0 is Go ==> {
                &&& i < r.1 <= ranges@.len()
                &&& views(final(self).tokens@).len() >= views(old(self).tokens@).len()
                &&& views(final(self).tokens@) == views(old(self).tokens@) + views(final(self).tokens@).skip(
                    views(old(self).tokens@).len() as int,
                )
                &&& lex_lines(views(old(self).known_tags@), range_views(src@, ranges@), i as int)
                    == prepend(
                    views(final(self).tokens@).skip(views(old(self).tokens@).len() as int),
                    lex_lines(views(old(self).known_tags@), range_views(src@, ranges@), r.1 as int),
                )
            },
            !(r.0 is Go) ==> reflects(
                views(old(self).tokens@),
                views(final(self).tokens@),
                r.0,
                lex_lines(views(old(self).known_tags@), range_views(src@, ranges@), i as int),
            ),
    {
        let ghost tv = views(self.known_tags@);
        let ghost lines = range_views(src@, ranges@);
        let ghost base = views(self.tokens@);
        let line_count = ranges.len();
        proof {
            reveal_strlit("#TLDR");
            reveal_strlit("#OBTW");
            assert(i + 1 <= line_count);
        }
        let t_open = String::from_str("#OBTW");
        self.tokens.push(t_open);
        proof {
            lemma_views_push(old(self).tokens@, t_open);
        }
        let (ra, rb) = trim_bounds(line, 5, line.len());
        let rest = copy_range(line, ra, rb);
        assert(rest@ == trim(line@.skip(5))) by {
            assert(line@.skip(5) =~= line@.subrange(5, line@.len() as int));
        }
        proof {
            lemma_find_ic_from(rest@, tldr@, 0);
        }
        match Self::find_ignore_case(&rest, tldr) {
            Some(pos) => {
                let ghost after_open = views(self.tokens@);
                self.push_text_if_any(&rest, 0, pos);
                let t_close = String::from_str("#TLDR");
                let ghost after_text = self.tokens@;
                self.tokens.push(t_close);
                proof {
                    lemma_views_push(after_text, t_close);
                    assert(rest@.subrange(0, pos as int) =~= rest@.take(pos as int));
                }
                let (aa, ab) = trim_bounds(&rest, pos + 5, rest.len());
                let after = copy_range(&rest, aa, ab);
                assert(after@ == trim(rest@.skip(pos + 5))) by {
                    assert(rest@.skip(pos + 5) =~= rest@.subrange(pos + 5, rest@.len() as int));
                }
                let ghost ct = comment_tokens(trim(rest@.take(pos as int)));
                assert(views(self.tokens@) =~= base + ct);
                let ghost mid = views(self.tokens@);
                let step = self.tokenize_regular_line(tags, &after);
                proof {
                    let ll = lex_line(tv, after@);
                    let nx = lex_lines(tv, lines, i + 1);
                    match ll {
                        Lexed::Done(t2) => {
                            lemma_prepend_assoc(ct, t2, nx);
                            assert(views(self.tokens@).skip(base.len() as int) =~= ct + t2);
                            assert(views(self.tokens@) =~= base + (ct + t2));
                        },
                        Lexed::Failed(t2, m) => {
                            assert(views(self.tokens@) =~= base + (ct + t2));
                        },
                        Lexed::Stuck => {},
                    }
                }
                (step, i + 1)
            },
            None => {
                match find_comment_end(src, ranges, tldr, i + 1) {

                    None => {
                        let e = String::from_str("Syntax error: comment started with #OBTW but missing #TLDR.");
                        assert(views(self.tokens@) =~= base + seq!["#OBTW"@]);
                        (LexStep::Error(e), i + 1)
                    },
                    Some(j) => {
                        proof {
                            lemma_tldr_line(lines, i + 1);
                        }
                        let mut parts: Vec<Vec<char>> = Vec::new();
                        if rest.len() > 0 {
                            parts.push(rest);
                        }
                        assert(vec_views(parts@) =~= nonempty(rest@));
                        let mut middle = comment_parts_exec(src, ranges, i + 1, j);
                        let ghost p1 = parts@;
                        let ghost mid_parts = middle@;
                        parts.append(&mut middle);
                        assert(vec_views(parts@) =~= vec_views(p1) + vec_views(mid_parts));
                        let next = trimmed_line(src, ranges, j);
                        proof {
                            lemma_find_ic_from(next@, tldr@, 0);
                        }
                        match Self::find_ignore_case(&next, tldr) {
                            None => {
                                proof {
                                    assert(false);
                                }
                                (LexStep::Endless, j + 1)
                            },
                            Some(pos) => {
                                proof {
                                    reveal_strlit("#TLDR");
                                    assert(tldr@.len() == 5);
                                    assert(pos + 5 <= next@.len());
                                }
                                let (ba, bb) = trim_bounds(&next, 0, pos);
                                let before = copy_range(&next, ba, bb);
                                let ghost p2 = parts@;
                                if before.len() > 0 {
                                    parts.push(before);
                                }
                                proof {
                                    assert(next@.subrange(0, pos as int) =~= next@.take(pos as int));
                                    assert(vec_views(parts@) =~= vec_views(p2) + nonempty(before@));
                                }
                                let space = chars_of(" ");
                                let joined = join_exec(&parts, &space);
                                self.push_text_if_any(&joined, 0, joined.len());
                                assert(joined@.subrange(0, joined@.len() as int) =~= joined@);
                                let t_close = String::from_str("#TLDR");
                                let ghost after_text = self.tokens@;
                                self.tokens.push(t_close);
                                proof {
                                    lemma_views_push(after_text, t_close);
                                }
                                let (aa, ab) = trim_bounds(&next, pos + 5, next.len());
                                let after = copy_range(&next, aa, ab);
                                assert(after@ == trim(next@.skip(pos + 5))) by {
                                    assert(next@.skip(pos + 5) =~= next@.subrange(pos + 5, next@.len() as int));
                                }
                                let ghost ct = comment_tokens(trim(joined@));
                                assert(views(self.tokens@) =~= base + ct);
                                let step = self.tokenize_regular_line(tags, &after);
                                proof {
                                    let ll = lex_line(tv, after@);
                                    let nx = lex_lines(tv, lines, j + 1);
                                    match ll {
                                        Lexed::Done(t2) => {
                                            lemma_prepend_assoc(ct, t2, nx);
                                            assert(views(self.tokens@).skip(base.len() as int) =~= ct + t2);
                                            assert(views(self.tokens@) =~= base + (ct + t2));
                                        },
                                        Lexed::Failed(t2, m) => {
                                            assert(views(self.tokens@) =~= base + (ct + t2));
                                        },
                                        Lexed::Stuck => {},
                                    }
                                }
                                (step, j + 1)
                            },
                        }
                    },
                }
            },
        }
    }
}


impl SimpleLexicalAnalyzer {
    /// Lexes line `i` (and, for a comment that closes later, the lines up to
    /// its end). Returns the line at which lexing goes on.
    fn lex_line_at(
        &mut self,
        tags: &Vec<Vec<char>>,
        obtw: &Vec<char>,
        tldr: &Vec<char>,
        src: &Vec<char>,
        ranges: &Vec<(usize, usize)>,
        i: usize,
    ) -> (r: (LexStep, usize))
        requires
            vec_views(tags@) == views(old(self).known_tags@),
            obtw@ == "#OBTW"@,
            tldr@ == "#TLDR"@,
            ranges_ok(src@, ranges@),
            i < ranges@.len(),
        ensures
            final(self).known_tags == old(self).known_tags,
            r.0 is Go ==> {
                &&& i < r.1 <= ranges@.len()
                &&& views(final(self).tokens@).len() >= views(old(self).tokens@).len()
                &&& views(final(self).tokens@) == views(old(self).tokens@) + views(final(self).tokens@).skip(
                    views(old(self).tokens@).len() as int,
                )
                &&& lex_lines(views(old(self).known_tags@), range_views(src@, ranges@), i as int)
                    == prepend(
                    views(final(self).tokens@).skip(views(old(self).tokens@).len() as int),
                    lex_lines(views(old(self).known_tags@), range_views(src@, ranges@), r.1 as int),
                )
            },
            !(r.0 is Go) ==> reflects(
                views(old(self).tokens@),
                views(final(self).tokens@),
                r.0,
                lex_lines(views(old(self).known_tags@), range_views(src@, ranges@), i as int),
            ),
    {
        let ghost tv = views(self.known_tags@);
        let ghost lines = range_views(src@, ranges@);
        let ghost base = views(self.tokens@);
        let line_count = ranges.len();
        proof {
            reveal_strlit("#OBTW");
            assert(i + 1 <= line_count);
        }
        let line = trimmed_line(src, ranges, i);
        if line.len() == 0 {
            proof {
                lemma_prepend_empty(lex_lines(tv, lines, i + 1));
                assert(base.skip(base.len() as int) =~= Seq::<Seq<char>>::empty());
                assert(base + Seq::<Seq<char>>::empty() =~= base);
            }
            return (LexStep::Go, i + 1);
        }
        if contains_char(&line, '<') || contains_char(&line, '>') || contains_char(&line, '&') {
            let mut e = String::from_str("Lexical error: invalid character found in line '");
            push_range(&mut e, &line, 0, line.len());
            e.append("'");
            proof {
                assert(line@.subrange(0, line@.len() as int) =~= line@);
                assert(base + Seq::<Seq<char>>::empty() =~= base);
            }
            return (LexStep::Error(e), i + 1);
        }
        assert(line@.skip(0) =~= line@);
        if Self::starts_with_ignore_case(&line, 0, obtw) {
            self.lex_comment(tags, tldr, src, ranges, i, &line)
        } else {
            let step = self.tokenize_regular_line(tags, &line);
            proof {
                let ll = lex_line(tv, line@);
                if let Lexed::Done(t) = ll {
                    assert(views(self.tokens@).skip(base.len() as int) =~= t);
                }
            }
            (step, i + 1)
        }
    }

    /// Lexes a whole source text, pushing its tokens in source order.
    fn run(&mut self, source: &str) -> (r: LexStep)
        ensures
            final(self).known_tags == old(self).known_tags,
            reflects(
                Seq::empty(),
                views(final(self).tokens@),
                r,
                lex_source(views(old(self).known_tags@), source@),
            ),
    {
        self.tokens.clear();
        let tags = self.tag_chars();
        let obtw = chars_of("#OBTW");
        let tldr = chars_of("#TLDR");
        let src = chars_of(source);
        let ranges = line_ranges(&src);
        let ghost tv = views(self.known_tags@);
        let ghost lines = range_views(src@, ranges@);
        let ghost mut produced: Seq<Seq<char>> = Seq::empty();
        proof {
            lemma_prepend_empty(lex_lines(tv, lines, 0));
            assert(views(self.tokens@) =~= produced);
        }
        let mut i: usize = 0;
        while i < ranges.len()
            invariant
                tv == views(self.known_tags@),
                self.known_tags == old(self).known_tags,
                vec_views(tags@) == tv,
                obtw@ == "#OBTW"@,
                tldr@ == "#TLDR"@,
                ranges_ok(src@, ranges@),
                lines == range_views(src@, ranges@),
                lines == source_lines(src@),
                src@ == source@,
                0 <= i <= ranges@.len(),
                views(self.tokens@) == produced,
                prepend(produced, lex_lines(tv, lines, i as int)) == lex_lines(tv, lines, 0),
            decreases ranges@.len() - i,
        {
            let ghost before = views(self.tokens@);
            let (step, next) = self.lex_line_at(&tags, &obtw, &tldr, &src, &ranges, i);
            match step {
                LexStep::Go => {
                    proof {
                        let t = views(self.tokens@).skip(before.len() as int);
                        lemma_prepend_assoc(produced, t, lex_lines(tv, lines, next as int));
                        produced = produced + t;
                    }
                    i = next;
                },
                LexStep::Error(e) => {
                    return LexStep::Error(e);
                },
                LexStep::Endless => {
                    return LexStep::Endless;
                },
            }
        }
        proof {
            assert(produced + Seq::<Seq<char>>::empty() =~= produced);
            assert(Seq::<Seq<char>>::empty() + produced =~= produced);
        }
        LexStep::Go
    }

    /// Reverses the order of the tokens.
    fn reverse_tokens(&mut self)
        ensures
            final(self).known_tags == old(self).known_tags,
            views(final(self).tokens@) == views(old(self).tokens@).reverse(),
    {
        let ghost ov = views(self.tokens@);
        let mut rev: Vec<String> = Vec::new();
        proof {
            assert(views(rev@) =~= ov.skip(ov.len() as int).reverse());
        }
        while self.tokens.len() > 0
            invariant
                self.known_tags == old(self).known_tags,
                ov == views(old(self).tokens@),
                self.tokens@ == old(self).tokens@.take(self.tokens@.len() as int),
                self.tokens@.len() <= old(self).tokens@.len(),
                views(rev@) == ov.skip(self.tokens@.len() as int).reverse(),
            decreases self.tokens@.len(),
        {
            let n = self.tokens.len();
            let t = self.tokens.pop().unwrap();
            let ghost old_rev = rev@;
            rev.push(t);
            proof {
                lemma_views_push(old_rev, t);
                assert(t == old(self).tokens@[n - 1]);
                assert(self.tokens@ =~= old(self).tokens@.take(n - 1));
                assert(views(rev@) =~= ov.skip(n - 1).reverse());
            }
        }
        self.tokens = rev;
    }

    /// Lexes `source`: the tokens, last one first, or the first error found.
    /// On an error the tokens produced before it stay, in source order.
    /// The one source it refuses is one on which an empty annotation would
    /// make it run without end (see `faults_on`); with annotations that are
    /// all non-empty, as the standard ones are, every source is accepted.
    pub fn tokenize(&mut self, source: &str) -> (r: Result<(), String>)
        requires
            !(lex_source(views(old(self).known_tags@), source@) is Stuck),
        ensures
            final(self).known_tags == old(self).known_tags,
            match lex_source(views(old(self).known_tags@), source@) {
                Lexed::Done(t) => r is Ok && views(final(self).tokens@) == t.reverse(),
                Lexed::Failed(t, m) => r matches Err(e) && e@ == m && views(final(self).tokens@) == t,
                Lexed::Stuck => false,
            },
    {
        match self.run(source) {
            LexStep::Go => {
                self.reverse_tokens();
                Ok(())
            },
            LexStep::Error(e) => Err(e),
            LexStep::Endless => {
                proof {
                    assert(false);
                }
                Ok(())
            },
        }
    }

    /// Whether lexing `source` with the annotations of this lexer would run
    /// without end: an empty annotation matches where no other one does, and
    /// the lexer makes no progress. With no empty annotation this never
    /// happens (see `law_every_source_lexes`).
    pub fn faults_on(&self, source: &str) -> (b: bool)
        ensures
            b == (lex_source(views(self.known_tags@), source@) is Stuck),
    {
        let mut scratch = SimpleLexicalAnalyzer { tokens: Vec::new(), known_tags: self.known_tags.clone() };
        proof {
            assert(views(scratch.known_tags@) =~= views(self.known_tags@));
        }
        match scratch.run(source) {
            LexStep::Endless => true,
            _ => false,
        }
    }
}


impl SimpleLexicalAnalyzer {
    /// Whether `s` is a known annotation or a text token.
    pub(crate) fn lookup(&self, s: &str) -> (b: bool)
        ensures
            b == recognized(views(self.known_tags@), s@),
    {
        let mut i: usize = 0;
        while i < self.known_tags.len()
            invariant
                0 <= i <= self.known_tags@.len(),
                forall|k: int| 0 <= k < i ==> views(self.known_tags@)[k] != s@,
            decreases self.known_tags@.len() - i,
        {
            if str_eq(self.known_tags[i].as_str(), s) {
                assert(views(self.known_tags@)[i as int] == s@);
                return true;
            }
            i += 1;
        }
        let c = chars_of(s);
        let p = chars_of("TEXT:");
        proof {
            reveal_strlit("TEXT:");
        }
        if c.len() < 5 {
            return false;
        }
        let b = matches_exact(&c, &p, 0);
        assert(c@.subrange(0, 5) =~= c@.take(5));
        b
    }
}

} // verus!
