use vstd::prelude::*;
use crate::token::{Delim, Tok, Token, token_view, tokens_view, lemma_tokens_view};

verus! {

broadcast use lemma_tokens_view;

pub open spec fn digit_chars() -> Seq<char> {
    seq!['0', '1', '2', '3', '4', '5', '6', '7', '8', '9']
}

/// The decimal numeral of `n`, without sign or suffix.
pub open spec fn decimal(n: nat) -> Seq<char>
    decreases n,
{
    if n < 10 {
        seq![digit_chars()[n as int]]
    } else {
        decimal(n / 10).push(digit_chars()[(n % 10) as int])
    }
}

/// The value of a decimal digit, or none.
pub open spec fn digit_value(c: char) -> Option<nat> {
    if c == '0' { Some(0) }
    else if c == '1' { Some(1) }
    else if c == '2' { Some(2) }
    else if c == '3' { Some(3) }
    else if c == '4' { Some(4) }
    else if c == '5' { Some(5) }
    else if c == '6' { Some(6) }
    else if c == '7' { Some(7) }
    else if c == '8' { Some(8) }
    else if c == '9' { Some(9) }
    else { None }
}

/// The value of a non-empty run of decimal digits.
pub open spec fn digits_value(s: Seq<char>) -> nat
    decreases s.len(),
{
    if s.len() == 0 {
        0
    } else {
        digits_value(s.drop_last()) * 10 + digit_value(s.last())->0
    }
}

pub open spec fn all_digits(s: Seq<char>) -> bool {
    forall|i: int| 0 <= i < s.len() ==> (#[trigger] digit_value(s[i])) is Some
}

/// The text without an optional leading `+`.
pub open spec fn unsigned_part(s: Seq<char>) -> Seq<char> {
    if s.len() > 0 && s[0] == '+' { s.drop_first() } else { s }
}

/// The index that a literal's text denotes, read as `usize` is read from a
/// string: an optional `+`, then one or more decimal digits, within range.
pub open spec fn index_of_text(s: Seq<char>) -> Option<usize> {
    let d = unsigned_part(s);
    if d.len() > 0 && all_digits(d) && digits_value(d) <= usize::MAX {
        Some(digits_value(d) as usize)
    } else {
        None
    }
}

fn digit_char(d: usize) -> (r: char)
    requires
        d < 10,
    ensures
        r == digit_chars()[d as int],
{
    match d {
        0 => '0',
        1 => '1',
        2 => '2',
        3 => '3',
        4 => '4',
        5 => '5',
        6 => '6',
        7 => '7',
        8 => '8',
        _ => '9',
    }
}

fn char_digit(c: char) -> (r: Option<usize>)
    ensures
        match digit_value(c) {
            Some(v) => r == Some(v as usize) && v < 10,
            None => r is None,
        },
{
    let r: Option<usize> = match c {
        '0' => Some(0),
        '1' => Some(1),
        '2' => Some(2),
        '3' => Some(3),
        '4' => Some(4),
        '5' => Some(5),
        '6' => Some(6),
        '7' => Some(7),
        '8' => Some(8),
        '9' => Some(9),
        _ => None,
    };
    r
}

/// The decimal numeral of `n`.
pub fn decimal_chars(n: usize) -> (r: Vec<char>)
    ensures
        r@ == decimal(n as nat),
    decreases n,
{
    if n < 10 {
        let mut r: Vec<char> = Vec::new();
        r.push(digit_char(n));
        assert(r@ =~= decimal(n as nat));
        r
    } else {
        let mut r = decimal_chars(n / 10);
        r.push(digit_char(n % 10));
        r
    }
}

proof fn lemma_digits_value_grows(s: Seq<char>, k: int)
    requires
        0 <= k <= s.len(),
    ensures
        digits_value(s.subrange(0, k)) <= digits_value(s),
    decreases s.len() - k,
{
    if k < s.len() {
        lemma_digits_value_grows(s, k + 1);
        assert(s.subrange(0, k + 1).drop_last() =~= s.subrange(0, k));
    } else {
        assert(s.subrange(0, k) =~= s);
    }
}

/// Reads a list index from a literal's text.
pub fn parse_index(s: &Vec<char>) -> (r: Option<usize>)
    ensures
        r == index_of_text(s@),
{
    let start: usize = if s.len() > 0 && s[0] == '+' { 1 } else { 0 };
    let ghost d = unsigned_part(s@);
    assert(d =~= s@.subrange(start as int, s@.len() as int));
    if start >= s.len() {
        return None;
    }
    let mut acc: usize = 0;
    let mut i: usize = start;
    while i < s.len()
        invariant
            start <= i <= s.len(),
            d == s@.subrange(start as int, s@.len() as int),
            d == unsigned_part(s@),
            all_digits(d.subrange(0, i - start)),
            acc as nat == digits_value(d.subrange(0, i - start)),
        decreases s.len() - i,
    {
        let c = s[i];
        let ghost p = d.subrange(0, i - start);
        let ghost q = d.subrange(0, i + 1 - start);
        assert(q.drop_last() =~= p);
        assert(q.last() == c);
        match char_digit(c) {
            None => {
                proof {
                    assert(d[i - start] == c);
                    assert(digit_value(d[i - start]) is None);
                    assert(!all_digits(d));
                }
                return None;
            },
            Some(v) => {
                let m = acc.checked_mul(10);
                if m.is_none() {
                    proof {
                        assert(digits_value(q) == acc * 10 + v);
                        assert(digits_value(q) > usize::MAX);
                        lemma_digits_value_grows(d, i + 1 - start);
                    }
                    return None;
                }
                let m = m.unwrap();
                let a = m.checked_add(v);
                if a.is_none() {
                    proof {
                        assert(digits_value(q) == acc * 10 + v);
                        assert(digits_value(q) > usize::MAX);
                        lemma_digits_value_grows(d, i + 1 - start);
                    }
                    return None;
                }
                acc = a.unwrap();
                proof {
                    assert forall|j: int| 0 <= j < q.len() implies (#[trigger] digit_value(q[j])) is Some by {
                        if j < p.len() {
                            assert(q[j] == p[j]);
                        }
                    }
                }
            },
        }
        i = i + 1;
    }
    assert(d.subrange(0, i - start) =~= d);
    Some(acc)
}

/// Whether a text is the given word.
pub fn text_is(t: &Vec<char>, w: &[char]) -> (r: bool)
    ensures
        r == (t@ == w@),
{
    if t.len() != w.len() {
        return false;
    }
    let mut i: usize = 0;
    while i < t.len()
        invariant
            t@.len() == w@.len(),
            i <= t.len(),
            t@.subrange(0, i as int) == w@.subrange(0, i as int),
        decreases t.len() - i,
    {
        if t[i] != w[i] {
            return false;
        }
        assert(t@.subrange(0, i + 1) =~= t@.subrange(0, i as int).push(t@[i as int]));
        assert(w@.subrange(0, i + 1) =~= w@.subrange(0, i as int).push(w@[i as int]));
        i = i + 1;
    }
    assert(t@ =~= t@.subrange(0, i as int));
    assert(w@ =~= w@.subrange(0, i as int));
    true
}

pub open spec fn open_text(d: Delim) -> Seq<char> {
    match d {
        Delim::Paren => seq!['('],
        Delim::Brace => seq!['{'],
        Delim::Bracket => seq!['['],
        Delim::Invisible => Seq::empty(),
    }
}

pub open spec fn close_text(d: Delim) -> Seq<char> {
    match d {
        Delim::Paren => seq![')'],
        Delim::Brace => seq!['}'],
        Delim::Bracket => seq![']'],
        Delim::Invisible => Seq::empty(),
    }
}

/// The source text of a token, its parts written one after another.
pub open spec fn tok_text(t: Tok) -> Seq<char>
    decreases t, 1nat,
{
    match t {
        Tok::Ident(s, _) => s,
        Tok::Literal(s, _) => s,
        Tok::Punct(c, _, _) => seq![c],
        Tok::Group(g) => open_text(g.delim) + toks_text(g.body) + close_text(g.delim),
    }
}

pub open spec fn toks_text(s: Seq<Tok>) -> Seq<char>
    decreases s, 0nat,
{
    if s.len() == 0 {
        Seq::empty()
    } else {
        toks_text(s.drop_last()) + tok_text(s.last())
    }
}

/// The characters of `s` other than the space.
pub open spec fn without_spaces(s: Seq<char>) -> Seq<char>
    decreases s.len(),
{
    if s.len() == 0 {
        s
    } else if s.last() == ' ' {
        without_spaces(s.drop_last())
    } else {
        without_spaces(s.drop_last()).push(s.last())
    }
}

/// The text that a token sequence concatenates to: its source text with
/// every space removed.
pub open spec fn concat_text_of(s: Seq<Tok>) -> Seq<char> {
    without_spaces(toks_text(s))
}

fn push_delim(d: Delim, open: bool, out: &mut Vec<char>)
    ensures
        final(out)@ == old(out)@ + if open { open_text(d) } else { close_text(d) },
{
    match d {
        Delim::Paren => out.push(if open { '(' } else { ')' }),
        Delim::Brace => out.push(if open { '{' } else { '}' }),
        Delim::Bracket => out.push(if open { '[' } else { ']' }),
        Delim::Invisible => {},
    }
    assert(final(out)@ =~= old(out)@ + if open { open_text(d) } else { close_text(d) });
}

fn push_chars(s: &Vec<char>, out: &mut Vec<char>)
    ensures
        final(out)@ == old(out)@ + s@,
{
    let mut i: usize = 0;
    while i < s.len()
        invariant
            i <= s.len(),
            out@ == old(out)@ + s@.subrange(0, i as int),
        decreases s.len() - i,
    {
        out.push(s[i]);
        i = i + 1;
        assert(out@ =~= old(out)@ + s@.subrange(0, i as int));
    }
    assert(s@.subrange(0, i as int) =~= s@);
}

fn push_text(t: &Token, out: &mut Vec<char>)
    ensures
        final(out)@ == old(out)@ + tok_text(t@),
    decreases t,
{
    match t {
        Token::Ident(s, _) => push_chars(s, out),
        Token::Literal(s, _) => push_chars(s, out),
        Token::Punct(c, _, _) => {
            out.push(*c);
            assert(final(out)@ =~= old(out)@ + tok_text(t@));
        },
        Token::Group(g) => {
            push_delim(g.delim, true, out);
            push_texts(&g.body, out);
            push_delim(g.delim, false, out);
            assert(final(out)@ =~= old(out)@ + tok_text(t@));
        },
    }
}

fn push_texts(v: &Vec<Token>, out: &mut Vec<char>)
    ensures
        final(out)@ == old(out)@ + toks_text(tokens_view(v@)),
    decreases v,
{
    let mut i: usize = 0;
    while i < v.len()
        invariant
            i <= v.len(),
            out@ == old(out)@ + toks_text(tokens_view(v@.subrange(0, i as int))),
        decreases v.len() - i,
    {
        assert(decreases_to!(v => v@[i as int]));
        push_text(&v[i], out);
        proof {
            let p = v@.subrange(0, i + 1);
            assert(p.drop_last() =~= v@.subrange(0, i as int));
            assert(tokens_view(p) == tokens_view(p.drop_last()).push(token_view(p.last())));
            let tp = tokens_view(p);
            assert(tp.drop_last() =~= tokens_view(p.drop_last()));
            assert(out@ =~= old(out)@ + toks_text(tokens_view(p)));
        }
        i = i + 1;
    }
    assert(v@.subrange(0, i as int) =~= v@);
}

fn strip_spaces(s: &Vec<char>) -> (r: Vec<char>)
    ensures
        r@ == without_spaces(s@),
{
    let mut r: Vec<char> = Vec::new();
    let mut i: usize = 0;
    while i < s.len()
        invariant
            i <= s.len(),
            r@ == without_spaces(s@.subrange(0, i as int)),
        decreases s.len() - i,
    {
        let ghost p = s@.subrange(0, i + 1);
        assert(p.drop_last() =~= s@.subrange(0, i as int));
        if s[i] != ' ' {
            r.push(s[i]);
        }
        i = i + 1;
    }
    assert(s@.subrange(0, i as int) =~= s@);
    r
}

/// The text that `tokens` concatenate to.
pub fn concat_text(tokens: &Vec<Token>) -> (r: Vec<char>)
    ensures
        r@ == concat_text_of(tokens_view(tokens@)),
{
    let mut raw: Vec<char> = Vec::new();
    push_texts(tokens, &mut raw);
    assert(raw@ =~= toks_text(tokens_view(tokens@)));
    strip_spaces(&raw)
}

/// Whether `c` is an ASCII letter, digit or `_`.
pub open spec fn word_char(c: char) -> bool {
    ('a' <= c && c <= 'z') || ('A' <= c && c <= 'Z') || ('0' <= c && c <= '9') || c == '_'
}

/// A text of ASCII letters, digits and `_` only. On such a text the
/// compiler's lexer and `proc_macro2`'s own lexer read the same tokens.
pub open spec fn plain_word(s: Seq<char>) -> bool {
    forall|i: int| 0 <= i < s.len() ==> word_char(#[trigger] s[i])
}

/// What `syn` makes of a plain word read as one identifier: the
/// identifier's text, or none where the word is a keyword, `_` or a number.
/// Only plain words are named: on other text the answer depends on which
/// lexer `proc_macro2` uses (the compiler's normalizes identifiers).
pub uninterp spec fn ident_of(s: Seq<char>) -> Option<Seq<char>>;

/// Relies on `syn::parse_str::<syn::Ident>`: on a plain word it answers what
/// either lexer gives, and on an empty text it finds no identifier.
#[verifier::external_body]
pub(crate) fn parse_ident(cs: &Vec<char>) -> (r: Option<Vec<char>>)
    ensures
        plain_word(cs@) ==> match r {
            Some(v) => ident_of(cs@) == Some(v@),
            None => ident_of(cs@) is None,
        },
        cs@.len() == 0 ==> r is None,
{
    let s: String = cs.iter().collect();
    match syn::parse_str::<syn::Ident>(&s) {
        Ok(ident) => Some(ident.to_string().chars().collect()),
        Err(_) => None,
    }
}

} // verus!
