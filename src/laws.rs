//! Properties of scanning as a whole, proved over the grammar model.
use vstd::prelude::*;

use crate::error::LexErrorView;
use crate::grammar::{
    end_token, errors_of, item_at, lemma_lex_advances, lex_at, line_at, newline_count,
    operator_kinds, scan_from, scan_source, single_char_kind, tokens_of, Item,
};
use crate::token::{literal_fits, TokenType, TokenView};

verus! {

/// A token without literal on line 1.
pub open spec fn plain_token(kind: TokenType, lexeme: Seq<char>) -> Item {
    Ok(TokenView { kind, lexeme, literal: None, line: 1 })
}

/// The end-of-input marker on line 1.
pub open spec fn first_line_end() -> Item {
    plain_token(TokenType::EndOfInput, seq![])
}

proof fn lemma_no_newline(s: Seq<char>)
    requires
        forall|i: int| 0 <= i < s.len() ==> s[i] != '\n',
    ensures
        newline_count(s) == 0,
    decreases s.len(),
{
    if s.len() > 0 {
        lemma_no_newline(s.drop_last());
    }
}

/// In a source without newlines every position is on line 1.
proof fn lemma_first_line(s: Seq<char>, pos: int)
    requires
        0 <= pos <= s.len(),
        forall|i: int| 0 <= i < s.len() ==> s[i] != '\n',
    ensures
        line_at(s, pos) == 1,
{
    lemma_no_newline(s.take(pos));
}

/// Scanning a source made of one single-character lexeme yields that
/// lexeme's token on line 1, then the end-of-input marker.
pub proof fn law_single_character(c: char)
    requires
        c == '(' || c == ')' || c == '{' || c == '}' || c == ',' || c == '.' || c == '-' || c
            == '+' || c == ';' || c == '*',
    ensures
        scan_source(seq![c]) == seq![
            plain_token(single_char_kind(c)->0, seq![c]),
            first_line_end(),
        ],
{
    let s = seq![c];
    lemma_first_line(s, 0);
    lemma_first_line(s, 1);
    assert(s.subrange(0, 1) =~= s);
    assert(scan_from(s, 1) =~= seq![first_line_end()]);
    assert(scan_source(s) =~= seq![plain_token(single_char_kind(c)->0, seq![c]), first_line_end()]);
}

/// `!`, `=`, `<` and `>` followed by `=` scan as one two-character token;
/// alone they scan as their one-character token.
pub proof fn law_operator_pairs(c: char)
    requires
        c == '!' || c == '=' || c == '<' || c == '>',
    ensures
        scan_source(seq![c, '=']) == seq![
            plain_token((operator_kinds(c)->0).1, seq![c, '=']),
            first_line_end(),
        ],
        scan_source(seq![c]) == seq![
            plain_token((operator_kinds(c)->0).0, seq![c]),
            first_line_end(),
        ],
{
    let pair = seq![c, '='];
    lemma_first_line(pair, 0);
    lemma_first_line(pair, 2);
    assert(pair.subrange(0, 2) =~= pair);
    assert(scan_from(pair, 2) =~= seq![first_line_end()]);
    assert(scan_source(pair) =~= seq![plain_token((operator_kinds(c)->0).1, pair), first_line_end()]);
    let one = seq![c];
    lemma_first_line(one, 0);
    lemma_first_line(one, 1);
    assert(one.subrange(0, 1) =~= one);
    assert(scan_from(one, 1) =~= seq![first_line_end()]);
    assert(scan_source(one) =~= seq![plain_token((operator_kinds(c)->0).0, one), first_line_end()]);
}

/// `cs` written out with one space between neighbours.
pub open spec fn spaced(cs: Seq<char>) -> Seq<char> {
    if cs.len() == 0 {
        seq![]
    } else {
        Seq::new(
            (2 * cs.len() - 1) as nat,
            |i: int|
                if i % 2 == 0 {
                    cs[i / 2]
                } else {
                    ' '
                },
        )
    }
}

/// The lexemes of `ts`, one after another.
pub open spec fn concat_lexemes(ts: Seq<TokenView>) -> Seq<char>
    decreases ts.len(),
{
    if ts.len() == 0 {
        seq![]
    } else {
        concat_lexemes(ts.drop_last()) + ts.last().lexeme
    }
}

/// What the single-character lexeme `c` scans to on line 1.
pub open spec fn single_item(c: char) -> Item {
    plain_token(single_char_kind(c)->0, seq![c])
}

proof fn lemma_spaced_from(cs: Seq<char>, k: int)
    requires
        0 <= k <= cs.len(),
        forall|i: int| 0 <= i < cs.len() ==> single_char_kind(#[trigger] cs[i]) is Some,
    ensures
        scan_from(spaced(cs), 2 * k) == Seq::new((cs.len() - k) as nat, |j: int| single_item(cs[k + j])).push(
            first_line_end(),
        ),
    decreases cs.len() - k,
{
    let s = spaced(cs);
    let n = cs.len() as int;
    assert forall|i: int| 0 <= i < s.len() implies s[i] != '\n' by {
        if i % 2 == 0 {
            assert(single_char_kind(cs[i / 2]) is Some);
        }
    }
    lemma_first_line(s, s.len() as int);
    let expected = Seq::new((n - k) as nat, |j: int| single_item(cs[k + j])).push(first_line_end());
    if k == n {
        assert(scan_from(s, 2 * k) =~= expected);
    } else {
        let pos = 2 * k;
        assert(s[pos] == cs[k]);
        lemma_first_line(s, pos);
        assert(s.subrange(pos, pos + 1) =~= seq![cs[k]]);
        assert(lex_at(s, pos).1 == pos + 1);
        lemma_spaced_from(cs, k + 1);
        let tail = Seq::new((n - k - 1) as nat, |j: int| single_item(cs[k + 1 + j])).push(
            first_line_end(),
        );
        if k + 1 < n {
            assert(s[pos + 1] == ' ');
            assert(scan_from(s, pos + 1) == scan_from(s, pos + 2));
        } else {
            assert(scan_from(s, pos + 1) =~= tail);
        }
        assert(scan_from(s, pos) == seq![single_item(cs[k])] + tail);
        assert(expected =~= seq![single_item(cs[k])] + tail);
    }
}

proof fn lemma_tokens_of_oks(items: Seq<Item>)
    requires
        forall|i: int| 0 <= i < items.len() ==> items[i] is Ok,
    ensures
        tokens_of(items).len() == items.len(),
        forall|i: int| 0 <= i < items.len() ==> tokens_of(items)[i] == items[i]->Ok_0,
    decreases items.len(),
{
    if items.len() > 0 {
        lemma_tokens_of_oks(items.drop_last());
    }
}

proof fn lemma_concat_singles(ts: Seq<TokenView>, cs: Seq<char>, m: int)
    requires
        0 <= m <= cs.len(),
        cs.len() <= ts.len(),
        forall|i: int| 0 <= i < cs.len() ==> ts[i].lexeme == seq![cs[i]],
    ensures
        concat_lexemes(ts.take(m)) == cs.take(m),
    decreases m,
{
    if m > 0 {
        lemma_concat_singles(ts, cs, m - 1);
        assert(ts.take(m).drop_last() =~= ts.take(m - 1));
        assert(cs.take(m) =~= cs.take(m - 1) + seq![cs[m - 1]]);
    } else {
        assert(cs.take(0) =~= Seq::<char>::empty());
    }
}

/// Scanning single-character lexemes separated by spaces yields one token
/// per character, whose lexeme is that character, then the end marker;
/// the lexemes, put together, give back the characters without the spaces.
pub proof fn law_round_trip(cs: Seq<char>)
    requires
        forall|i: int| 0 <= i < cs.len() ==> single_char_kind(#[trigger] cs[i]) is Some,
    ensures
        scan_source(spaced(cs)) == Seq::new(cs.len(), |i: int| single_item(cs[i])).push(
            first_line_end(),
        ),
        concat_lexemes(tokens_of(scan_source(spaced(cs)))) == cs,
{
    lemma_spaced_from(cs, 0);
    let items = scan_source(spaced(cs));
    assert(items =~= Seq::new(cs.len(), |i: int| single_item(cs[i])).push(first_line_end()));
    lemma_tokens_of_oks(items);
    let ts = tokens_of(items);
    let n = cs.len() as int;
    lemma_concat_singles(ts, cs, n);
    assert(ts.drop_last() =~= ts.take(n));
    assert(cs.take(n) =~= cs);
    assert(concat_lexemes(ts) =~= cs);
}

/// The shape every item sequence has: it ends with the end-of-input
/// marker, no other item is one, and each token carries a literal exactly
/// when its kind has one.
pub open spec fn well_formed_items(items: Seq<Item>, end: TokenView) -> bool {
    &&& items.len() > 0
    &&& items.last() == Ok::<TokenView, LexErrorView>(end)
    &&& forall|i: int|
        0 <= i < items.len() - 1 ==> (#[trigger] items[i] matches Ok(t) ==> t.kind
            != TokenType::EndOfInput)
    &&& forall|i: int|
        0 <= i < items.len() ==> (#[trigger] items[i] matches Ok(t) ==> literal_fits(
            t.kind,
            t.literal,
        ))
}

proof fn lemma_items_from(s: Seq<char>, pos: int)
    requires
        0 <= pos,
    ensures
        well_formed_items(scan_from(s, pos), end_token(s)),
    decreases s.len() - pos,
{
    if pos < s.len() {
        lemma_lex_advances(s, pos);
        let end = lex_at(s, pos).1;
        lemma_items_from(s, end);
        let rest = scan_from(s, end);
        if let Some(x) = item_at(s, pos) {
            let items = seq![x] + rest;
            assert(scan_from(s, pos) == items);
            assert(x matches Ok(t) ==> t.kind != TokenType::EndOfInput && literal_fits(
                t.kind,
                t.literal,
            ));
            assert forall|i: int| 0 < i < items.len() implies #[trigger] items[i] == rest[i - 1] by {}
            assert(items.last() == rest.last());
        }
    }
}

/// Every scan ends with exactly one end-of-input marker, on the last line
/// of the source, and every token carries a literal exactly when its kind
/// is number, string or identifier.
pub proof fn law_items_well_formed(s: Seq<char>)
    ensures
        well_formed_items(scan_source(s), end_token(s)),
{
    lemma_items_from(s, 0);
}

/// Scanning is a function of the source text: equal sources scan to equal
/// item sequences, so scanning a text twice gives the same tokens twice.
pub proof fn law_scan_deterministic(a: Seq<char>, b: Seq<char>)
    requires
        a == b,
    ensures
        scan_source(a) == scan_source(b),
        tokens_of(scan_source(a)) == tokens_of(scan_source(b)),
        errors_of(scan_source(a)) == errors_of(scan_source(b)),
{
}

} // verus!
