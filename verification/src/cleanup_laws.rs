//! Properties of the clean-up of the HTML: which spaces it removes.
use vstd::prelude::*;
use crate::compiler::cleanup;
use crate::text::{replace_all, replace_from};

verus! {

/// At position `k` of `s` stands a space followed by another space or by
/// one of the characters `cs`.
pub open spec fn space_before(s: Seq<char>, k: int, cs: Seq<char>) -> bool {
    &&& 0 <= k
    &&& k + 1 < s.len()
    &&& s[k] == ' '
    &&& (s[k + 1] == ' ' || cs.contains(s[k + 1]))
}

/// No space in `s` is followed by another space or by one of `cs`.
pub open spec fn clean(s: Seq<char>, cs: Seq<char>) -> bool {
    forall|k: int| !#[trigger] space_before(s, k, cs)
}

/// `from` stands at position `i` of `s`.
pub open spec fn occurs_at(s: Seq<char>, from: Seq<char>, i: int) -> bool {
    0 <= i && i + from.len() <= s.len() && s.subrange(i, i + from.len()) == from
}

/// One replacement step keeps `s` clean, and makes it clean of the
/// character whose preceding space it removes.
proof fn lemma_replace_clean(
    s: Seq<char>,
    from: Seq<char>,
    to: Seq<char>,
    cs: Seq<char>,
    cs2: Seq<char>,
    i: int,
)
    requires
        0 <= i,
        from.len() > 0,
        to.len() > 0,
        to[0] != ' ',
        to.last() != ' ',
        forall|k: int| 0 <= k < to.len() ==> to[k] != ' ' || k == 0,
        !cs.contains(to[0]),
        clean(s, cs),
        cs2 == cs || (cs2 == cs.push(to[0]) && from == seq![' ', to[0]] && to == seq![to[0]]),
    ensures
        clean(replace_from(s, from, to, i), cs2),
        replace_from(s, from, to, i).len() > 0 ==> i < s.len() && (replace_from(s, from, to, i)[0]
            == s[i] || (occurs_at(s, from, i) && replace_from(s, from, to, i)[0] == to[0])),
    decreases s.len() - i,
{
    let r = replace_from(s, from, to, i);
    if i >= s.len() {
        assert(r.len() == 0);
        assert forall|k: int| !#[trigger] space_before(r, k, cs2) by {}
    } else if from.len() > 0 && i + from.len() <= s.len() && s.subrange(i, i + from.len()) == from {
        let r2 = replace_from(s, from, to, i + from.len());
        lemma_replace_clean(s, from, to, cs, cs2, i + from.len());
        assert(r == to + r2);
        assert forall|k: int| !#[trigger] space_before(r, k, cs2) by {
            if space_before(r, k, cs2) {
                if k < to.len() {
                    assert(r[k] == to[k]);
                    assert(k == 0);
                    assert(to[0] != ' ');
                } else {
                    assert(r[k] == r2[k - to.len()]);
                    assert(r[k + 1] == r2[k + 1 - to.len()]);
                    assert(space_before(r2, k - to.len(), cs2));
                }
            }
        }
        assert(r[0] == to[0]);
    } else {
        let r2 = replace_from(s, from, to, i + 1);
        lemma_replace_clean(s, from, to, cs, cs2, i + 1);
        assert(r == seq![s[i]] + r2);
        assert forall|k: int| !#[trigger] space_before(r, k, cs2) by {
            if space_before(r, k, cs2) {
                if k == 0 {
                    assert(r[0] == s[i]);
                    assert(r[1] == r2[0]);
                    if r2[0] == s[i + 1] {
                        assert(!space_before(s, i, cs));
                        if cs2 != cs {
                            assert(s[i + 1] == to[0]);
                            assert(s.subrange(i, i + 2) =~= from);
                        }
                    } else {
                        assert(occurs_at(s, from, i + 1));
                        if cs2 != cs {
                            assert(s.subrange(i + 1, i + 3)[0] == s[i + 1]);
                            assert(s[i + 1] == ' ');
                            assert(!space_before(s, i, cs));
                        }
                    }
                } else {
                    assert(r[k] == r2[k - 1]);
                    assert(r[k + 1] == r2[k]);
                    assert(space_before(r2, k - 1, cs2));
                }
            }
        }
    }
}

/// One step of the clean-up, with a replacement that holds no space.
proof fn lemma_step(s: Seq<char>, from: Seq<char>, to: Seq<char>, cs: Seq<char>, cs2: Seq<char>)
    requires
        from.len() > 0,
        to.len() > 0,
        forall|k: int| 0 <= k < to.len() ==> to[k] != ' ',
        !cs.contains(to[0]),
        clean(s, cs),
        cs2 == cs || (cs2 == cs.push(to[0]) && from == seq![' ', to[0]] && to == seq![to[0]]),
    ensures
        clean(replace_all(s, from, to), cs2),
{
    assert(to[0] != ' ' && to.last() == to[to.len() - 1]);
    lemma_replace_clean(s, from, to, cs, cs2, 0);
}

proof fn lemma_push_contains(cs: Seq<char>, c: char, d: char)
    ensures
        cs.push(c).contains(d) <==> (cs.contains(d) || d == c),
{
    if cs.push(c).contains(d) {
        let k = choose|k: int| 0 <= k < cs.push(c).len() && cs.push(c)[k] == d;
        if k < cs.len() {
            assert(cs[k] == d);
        }
    }
    if cs.contains(d) {
        let k = choose|k: int| 0 <= k < cs.len() && cs[k] == d;
        assert(cs.push(c)[k] == d);
    }
    if d == c {
        assert(cs.push(c)[cs.len() as int] == d);
    }
}

/// The clean-up removes every space that stands before `.`, `,`, `!`, `?`,
/// `:` or `;`: in an output where no two spaces stand in a row (as the
/// compiler writes them between pieces), no space is left before any of
/// them in the cleaned output, nor two spaces in a row.
pub proof fn law_cleanup_leaves_no_space_before_punctuation(s: Seq<char>, k: int)
    requires
        forall|j: int| 0 <= j < s.len() - 1 ==> !(s[j] == ' ' && #[trigger] s[j + 1] == ' '),
        0 <= k < cleanup(s).len() - 1,
        cleanup(s)[k] == ' ',
    ensures
        cleanup(s)[k + 1] != '.',
        cleanup(s)[k + 1] != ',',
        cleanup(s)[k + 1] != '!',
        cleanup(s)[k + 1] != '?',
        cleanup(s)[k + 1] != ':',
        cleanup(s)[k + 1] != ';',
        cleanup(s)[k + 1] != ' ',
{
    reveal_strlit(" .");
    reveal_strlit(".");
    reveal_strlit(" ,");
    reveal_strlit(",");
    reveal_strlit(" !");
    reveal_strlit("!");
    reveal_strlit(" ?");
    reveal_strlit("?");
    reveal_strlit(" :");
    reveal_strlit(":");
    reveal_strlit(" ;");
    reveal_strlit(";");
    reveal_strlit(" </p>");
    reveal_strlit("</p>");
    reveal_strlit(" </li>");
    reveal_strlit("</li>");
    reveal_strlit("> </");
    reveal_strlit("></");
    reveal_strlit("<p> ");
    reveal_strlit("<p>");
    reveal_strlit("<li> ");
    reveal_strlit("<li>");
    let e = Seq::<char>::empty();
    assert forall|j: int| !#[trigger] space_before(s, j, e) by {
        if space_before(s, j, e) {
            assert(s[j] == ' ' && s[j + 1] == ' ');
        }
    }
    let c1 = e.push('.');
    let c2 = c1.push(',');
    let c3 = c2.push('!');
    let c4 = c3.push('?');
    let c5 = c4.push(':');
    let c6 = c5.push(';');
    assert(" ."@ =~= seq![' ', '.'] && "."@ =~= seq!['.']);
    assert(" ,"@ =~= seq![' ', ','] && ","@ =~= seq![',']);
    assert(" !"@ =~= seq![' ', '!'] && "!"@ =~= seq!['!']);
    assert(" ?"@ =~= seq![' ', '?'] && "?"@ =~= seq!['?']);
    assert(" :"@ =~= seq![' ', ':'] && ":"@ =~= seq![':']);
    assert(" ;"@ =~= seq![' ', ';'] && ";"@ =~= seq![';']);
    lemma_push_contains(e, '.', ',');
    lemma_push_contains(c1, ',', '!');
    lemma_push_contains(e, '.', '!');
    lemma_push_contains(c2, '!', '?');
    lemma_push_contains(c1, ',', '?');
    lemma_push_contains(e, '.', '?');
    lemma_push_contains(c3, '?', ':');
    lemma_push_contains(c2, '!', ':');
    lemma_push_contains(c1, ',', ':');
    lemma_push_contains(e, '.', ':');
    lemma_push_contains(c4, ':', ';');
    lemma_push_contains(c3, '?', ';');
    lemma_push_contains(c2, '!', ';');
    lemma_push_contains(c1, ',', ';');
    lemma_push_contains(e, '.', ';');
    lemma_push_contains(c6, ';', '<');
    lemma_push_contains(c5, ':', '<');
    lemma_push_contains(c4, '?', '<');
    lemma_push_contains(c3, '!', '<');
    lemma_push_contains(c2, ',', '<');
    lemma_push_contains(c1, '.', '<');
    lemma_push_contains(e, '.', '<');
    lemma_push_contains(c5, ';', '>');
    lemma_push_contains(c4, ':', '>');
    lemma_push_contains(c3, '?', '>');
    lemma_push_contains(c2, '!', '>');
    lemma_push_contains(c1, ',', '>');
    lemma_push_contains(e, '.', '>');
    assert(!c6.contains('<'));
    assert(!c6.contains('>'));
    let s1 = replace_all(s, " ."@, "."@);
    lemma_step(s, " ."@, "."@, e, c1);
    let s2 = replace_all(s1, " ,"@, ","@);
    lemma_step(s1, " ,"@, ","@, c1, c2);
    let s3 = replace_all(s2, " !"@, "!"@);
    lemma_step(s2, " !"@, "!"@, c2, c3);
    let s4 = replace_all(s3, " ?"@, "?"@);
    lemma_step(s3, " ?"@, "?"@, c3, c4);
    let s5 = replace_all(s4, " :"@, ":"@);
    lemma_step(s4, " :"@, ":"@, c4, c5);
    let s6 = replace_all(s5, " ;"@, ";"@);
    lemma_step(s5, " ;"@, ";"@, c5, c6);
    assert(" </p>"@ =~= seq![' ', '<', '/', 'p', '>'] && "</p>"@ =~= seq!['<', '/', 'p', '>']);
    let s7 = replace_all(s6, " </p>"@, "</p>"@);
    lemma_step(s6, " </p>"@, "</p>"@, c6, c6);
    assert(" </li>"@ =~= seq![' ', '<', '/', 'l', 'i', '>'] && "</li>"@ =~= seq!['<', '/', 'l', 'i', '>']);
    let s8 = replace_all(s7, " </li>"@, "</li>"@);
    lemma_step(s7, " </li>"@, "</li>"@, c6, c6);
    assert("> </"@ =~= seq!['>', ' ', '<', '/'] && "></"@ =~= seq!['>', '<', '/']);
    let s9 = replace_all(s8, "> </"@, "></"@);
    lemma_step(s8, "> </"@, "></"@, c6, c6);
    assert("<p> "@ =~= seq!['<', 'p', '>', ' '] && "<p>"@ =~= seq!['<', 'p', '>']);
    let s10 = replace_all(s9, "<p> "@, "<p>"@);
    lemma_step(s9, "<p> "@, "<p>"@, c6, c6);
    assert("<li> "@ =~= seq!['<', 'l', 'i', '>', ' '] && "<li>"@ =~= seq!['<', 'l', 'i', '>']);
    lemma_step(s10, "<li> "@, "<li>"@, c6, c6);
    let r = cleanup(s);
    assert(!space_before(r, k, c6));
    assert(c6 =~= seq!['.', ',', '!', '?', ':', ';']);
    assert(c6[0] == '.' && c6[1] == ',' && c6[2] == '!' && c6[3] == '?' && c6[4] == ':' && c6[5] == ';');
}

/// The characters of `s` other than spaces, in order.
pub open spec fn non_spaces(s: Seq<char>) -> Seq<char> {
    s.filter(|c: char| c != ' ')
}

proof fn lemma_non_spaces_add(a: Seq<char>, b: Seq<char>)
    ensures
        non_spaces(a + b) == non_spaces(a) + non_spaces(b),
{
    Seq::filter_distributes_over_add(a, b, |c: char| c != ' ');
}

proof fn lemma_non_spaces_one(c: char)
    ensures
        non_spaces(seq![c]) == (if c == ' ' { Seq::<char>::empty() } else { seq![c] }),
{
    reveal_with_fuel(Seq::filter, 2);
    assert(seq![c].drop_last() =~= Seq::<char>::empty());
}

/// Removing one space from `from` gives `to`.
proof fn lemma_one_space_less(from: Seq<char>, to: Seq<char>, k: int)
    requires
        0 <= k <= to.len(),
        from == to.take(k) + seq![' '] + to.skip(k),
    ensures
        non_spaces(from) == non_spaces(to),
{
    lemma_non_spaces_add(to.take(k) + seq![' '], to.skip(k));
    lemma_non_spaces_add(to.take(k), seq![' ']);
    lemma_non_spaces_one(' ');
    lemma_non_spaces_add(to.take(k), to.skip(k));
    assert(to.take(k) + to.skip(k) =~= to);
    assert(non_spaces(to.take(k)) + Seq::<char>::empty() =~= non_spaces(to.take(k)));
}

proof fn lemma_replace_non_spaces(s: Seq<char>, from: Seq<char>, to: Seq<char>, i: int)
    requires
        0 <= i <= s.len(),
        non_spaces(from) == non_spaces(to),
    ensures
        non_spaces(replace_from(s, from, to, i)) == non_spaces(s.skip(i)),
    decreases s.len() - i,
{
    if i == s.len() {
        assert(s.skip(i) =~= replace_from(s, from, to, i));
    } else if from.len() > 0 && i + from.len() <= s.len() && s.subrange(i, i + from.len()) == from {
        lemma_replace_non_spaces(s, from, to, i + from.len());
        lemma_non_spaces_add(to, replace_from(s, from, to, i + from.len()));
        assert(s.skip(i) =~= from + s.skip(i + from.len()));
        lemma_non_spaces_add(from, s.skip(i + from.len()));
    } else {
        lemma_replace_non_spaces(s, from, to, i + 1);
        lemma_non_spaces_add(seq![s[i]], replace_from(s, from, to, i + 1));
        assert(s.skip(i) =~= seq![s[i]] + s.skip(i + 1));
        lemma_non_spaces_add(seq![s[i]], s.skip(i + 1));
    }
}

proof fn lemma_step_non_spaces(s: Seq<char>, from: Seq<char>, to: Seq<char>, k: int)
    requires
        0 <= k <= to.len(),
        from == to.take(k) + seq![' '] + to.skip(k),
    ensures
        non_spaces(replace_all(s, from, to)) == non_spaces(s),
{
    lemma_one_space_less(from, to, k);
    lemma_replace_non_spaces(s, from, to, 0);
    assert(s.skip(0) =~= s);
}

/// The clean-up removes spaces only: every other character of the output
/// stays, in the same order.
pub proof fn law_cleanup_removes_only_spaces(s: Seq<char>)
    ensures
        non_spaces(cleanup(s)) == non_spaces(s),
{
    reveal_strlit(" .");
    reveal_strlit(".");
    reveal_strlit(" ,");
    reveal_strlit(",");
    reveal_strlit(" !");
    reveal_strlit("!");
    reveal_strlit(" ?");
    reveal_strlit("?");
    reveal_strlit(" :");
    reveal_strlit(":");
    reveal_strlit(" ;");
    reveal_strlit(";");
    reveal_strlit(" </p>");
    reveal_strlit("</p>");
    reveal_strlit(" </li>");
    reveal_strlit("</li>");
    reveal_strlit("> </");
    reveal_strlit("></");
    reveal_strlit("<p> ");
    reveal_strlit("<p>");
    reveal_strlit("<li> ");
    reveal_strlit("<li>");
    let s1 = replace_all(s, " ."@, "."@);
    assert(" ."@ =~= "."@.take(0) + seq![' '] + "."@.skip(0));
    lemma_step_non_spaces(s, " ."@, "."@, 0);
    let s2 = replace_all(s1, " ,"@, ","@);
    assert(" ,"@ =~= ","@.take(0) + seq![' '] + ","@.skip(0));
    lemma_step_non_spaces(s1, " ,"@, ","@, 0);
    let s3 = replace_all(s2, " !"@, "!"@);
    assert(" !"@ =~= "!"@.take(0) + seq![' '] + "!"@.skip(0));
    lemma_step_non_spaces(s2, " !"@, "!"@, 0);
    let s4 = replace_all(s3, " ?"@, "?"@);
    assert(" ?"@ =~= "?"@.take(0) + seq![' '] + "?"@.skip(0));
    lemma_step_non_spaces(s3, " ?"@, "?"@, 0);
    let s5 = replace_all(s4, " :"@, ":"@);
    assert(" :"@ =~= ":"@.take(0) + seq![' '] + ":"@.skip(0));
    lemma_step_non_spaces(s4, " :"@, ":"@, 0);
    let s6 = replace_all(s5, " ;"@, ";"@);
    assert(" ;"@ =~= ";"@.take(0) + seq![' '] + ";"@.skip(0));
    lemma_step_non_spaces(s5, " ;"@, ";"@, 0);
    let s7 = replace_all(s6, " </p>"@, "</p>"@);
    assert(" </p>"@ =~= "</p>"@.take(0) + seq![' '] + "</p>"@.skip(0));
    lemma_step_non_spaces(s6, " </p>"@, "</p>"@, 0);
    let s8 = replace_all(s7, " </li>"@, "</li>"@);
    assert(" </li>"@ =~= "</li>"@.take(0) + seq![' '] + "</li>"@.skip(0));
    lemma_step_non_spaces(s7, " </li>"@, "</li>"@, 0);
    let s9 = replace_all(s8, "> </"@, "></"@);
    assert("> </"@ =~= "></"@.take(1) + seq![' '] + "></"@.skip(1));
    lemma_step_non_spaces(s8, "> </"@, "></"@, 1);
    let s10 = replace_all(s9, "<p> "@, "<p>"@);
    assert("<p> "@ =~= "<p>"@.take(3) + seq![' '] + "<p>"@.skip(3));
    lemma_step_non_spaces(s9, "<p> "@, "<p>"@, 3);
    assert("<li> "@ =~= "<li>"@.take(4) + seq![' '] + "<li>"@.skip(4));
    lemma_step_non_spaces(s10, "<li> "@, "<li>"@, 4);
}

proof fn lemma_replace_absent(s: Seq<char>, from: Seq<char>, to: Seq<char>, i: int)
    requires
        0 <= i <= s.len(),
        forall|j: int| !#[trigger] occurs_at(s, from, j),
    ensures
        replace_from(s, from, to, i) == s.skip(i),
    decreases s.len() - i,
{
    if i == s.len() {
        assert(s.skip(i) =~= Seq::<char>::empty());
    } else {
        assert(!occurs_at(s, from, i));
        lemma_replace_absent(s, from, to, i + 1);
        assert(s.skip(i) =~= seq![s[i]] + s.skip(i + 1));
    }
}

proof fn lemma_step_absent(s: Seq<char>, from: Seq<char>, to: Seq<char>)
    requires
        forall|j: int| !#[trigger] occurs_at(s, from, j),
    ensures
        replace_all(s, from, to) == s,
{
    lemma_replace_absent(s, from, to, 0);
    assert(s.skip(0) =~= s);
}

/// The clean-up leaves an output alone when there is nothing to clean in
/// it: no space before `.`, `,`, `!`, `?`, `:`, `;`, `</p>` or `</li>`,
/// between `>` and `</`, or after `<p>` or `<li>`.
pub proof fn law_cleanup_keeps_clean_output(s: Seq<char>)
    requires
        forall|j: int| !#[trigger] occurs_at(s, " ."@, j),
        forall|j: int| !#[trigger] occurs_at(s, " ,"@, j),
        forall|j: int| !#[trigger] occurs_at(s, " !"@, j),
        forall|j: int| !#[trigger] occurs_at(s, " ?"@, j),
        forall|j: int| !#[trigger] occurs_at(s, " :"@, j),
        forall|j: int| !#[trigger] occurs_at(s, " ;"@, j),
        forall|j: int| !#[trigger] occurs_at(s, " </p>"@, j),
        forall|j: int| !#[trigger] occurs_at(s, " </li>"@, j),
        forall|j: int| !#[trigger] occurs_at(s, "> </"@, j),
        forall|j: int| !#[trigger] occurs_at(s, "<p> "@, j),
        forall|j: int| !#[trigger] occurs_at(s, "<li> "@, j),
    ensures
        cleanup(s) == s,
{
    lemma_step_absent(s, " ."@, "."@);
    lemma_step_absent(s, " ,"@, ","@);
    lemma_step_absent(s, " !"@, "!"@);
    lemma_step_absent(s, " ?"@, "?"@);
    lemma_step_absent(s, " :"@, ":"@);
    lemma_step_absent(s, " ;"@, ";"@);
    lemma_step_absent(s, " </p>"@, "</p>"@);
    lemma_step_absent(s, " </li>"@, "</li>"@);
    lemma_step_absent(s, "> </"@, "></"@);
    lemma_step_absent(s, "<p> "@, "<p>"@);
    lemma_step_absent(s, "<li> "@, "<li>"@);
}

} // verus!
