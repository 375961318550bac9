use std::str::FromStr;

use proc_macro2::{Delimiter, Spacing, TokenStream, TokenTree};
use tokplate::error::{ErrorKind, EvalError, Reason};
use tokplate::parse::evaluate;
use tokplate::quotes::concat_ident_token;
use tokplate::text::{concat_text, decimal_chars, parse_index};
use tokplate::token::{Delim, Group, Span, Token};

fn chars(s: &str) -> Vec<char> {
    s.chars().collect()
}

fn convert(stream: TokenStream, next: &mut u64, out: &mut Vec<Token>) {
    for tree in stream {
        let span = Span { lo: *next, hi: *next };
        *next += 1;
        match tree {
            TokenTree::Ident(i) => out.push(Token::Ident(chars(&i.to_string()), span)),
            TokenTree::Literal(l) => out.push(Token::Literal(chars(&l.to_string()), span)),
            TokenTree::Punct(p) => out.push(Token::Punct(p.as_char(), p.spacing() == Spacing::Joint, span)),
            TokenTree::Group(g) => {
                let delim = match g.delimiter() {
                    Delimiter::Parenthesis => Delim::Paren,
                    Delimiter::Brace => Delim::Brace,
                    Delimiter::Bracket => Delim::Bracket,
                    Delimiter::None => Delim::Invisible,
                };
                let mut body = Vec::new();
                convert(g.stream(), next, &mut body);
                out.push(Token::Group(Group { delim, body, span }));
            },
        }
    }
}

fn toks(src: &str) -> Vec<Token> {
    let mut out = Vec::new();
    let mut next = 0;
    convert(TokenStream::from_str(src).unwrap(), &mut next, &mut out);
    out
}

fn text(ts: &[Token]) -> String {
    let mut parts: Vec<String> = Vec::new();
    for t in ts {
        parts.push(match t {
            Token::Ident(s, _) | Token::Literal(s, _) => s.iter().collect(),
            Token::Punct(c, _, _) => c.to_string(),
            Token::Group(g) => {
                let (o, c) = match g.delim {
                    Delim::Paren => ("(", ")"),
                    Delim::Brace => ("{", "}"),
                    Delim::Bracket => ("[", "]"),
                    Delim::Invisible => ("", ""),
                };
                format!("{}{}{}", o, text(&g.body), c)
            },
        });
    }
    parts.join(" ")
}

fn run(src: &str) -> Result<String, EvalError> {
    evaluate(toks(src)).map(|o| text(&o))
}

fn fails(src: &str) -> Reason {
    match run(src) {
        Ok(o) => panic!("expected a failure, got {}", o),
        Err(e) => e.reason,
    }
}

#[test]
fn plain_tokens_are_unchanged() {
    let src = "fn main ( ) { let x = [ 1 , 2 ] ; x . len ( ) }";
    let input = toks(src);
    let expect = text(&input);
    let out = evaluate(input).unwrap();
    assert_eq!(text(&out), expect);
    assert_eq!(out.len(), 4);
}

#[test]
fn plain_tokens_keep_spans() {
    let out = evaluate(toks("a (b c)")).unwrap();
    match &out[1] {
        Token::Group(g) => {
            assert_eq!(g.span, Span { lo: 1, hi: 1 });
            assert_eq!(g.body.len(), 2);
        },
        _ => panic!("expected a group"),
    }
}

#[test]
fn doubled_sigil_escapes() {
    let out = evaluate(toks("$$")).unwrap();
    assert_eq!(out.len(), 1);
    assert!(matches!(out[0], Token::Punct('$', _, Span { lo: 1, hi: 1 })));
}

#[test]
fn assignment_then_reference() {
    let out = evaluate(toks("$x: 5 $(x)")).unwrap();
    assert_eq!(out.len(), 1);
    match &out[0] {
        Token::Literal(s, span) => {
            assert_eq!(s.iter().collect::<String>(), "5");
            assert_eq!(*span, Span { lo: 4, hi: 5 });
        },
        _ => panic!("expected a literal"),
    }
}

#[test]
fn list_length() {
    assert_eq!(run("$xs: (1, 2, 3) $len(xs)").unwrap(), "3");
    assert_eq!(run("$xs: () $len(xs)").unwrap(), "0");
    assert_eq!(run("$xs: (1, 2,) $len(xs)").unwrap(), "2");
}

#[test]
fn length_of_scalar_and_map() {
    assert_eq!(run("$x: a $len(x)").unwrap(), "1");
    assert_eq!(run("$m: { a: 1, b: 2, a: 3 } $len(m)").unwrap(), "2");
}

#[test]
fn map_field_access() {
    assert_eq!(run("$m: { a: 1, b: 2 } $(m.a)").unwrap(), "1");
    assert_eq!(run("$m: { a: 1, b: 2 } $(m.b)").unwrap(), "2");
    let r = fails("$m: { a: 1, b: 2 } $(m.c)");
    assert_eq!(r, Reason::ItemNotFound);
    assert_eq!(r.kind(), ErrorKind::NotFound);
}

#[test]
fn map_overwrites_duplicate_keys() {
    assert_eq!(run("$m: { a: 1, a: 2 } $(m.a)").unwrap(), "2");
}

#[test]
fn list_index_access() {
    assert_eq!(run("$xs: (a, b, c) $(xs.1)").unwrap(), "b");
    assert_eq!(fails("$xs: (a, b, c) $(xs.3)"), Reason::ItemNotFound);
    assert_eq!(run("$xs: ((a, b), c) $(xs.0 .1)").unwrap(), "b");
}

#[test]
fn iteration_flags() {
    assert_eq!(run("$xs: (1, 2, 3) $[xs]{ $first{F} $last{L} }").unwrap(), "F L");
    assert_eq!(run("$xs: (1, 2, 3) $[xs]{ < $first{F} $last{L} > }").unwrap(), "< F > < > < L >");
}

#[test]
fn negated_flags() {
    assert_eq!(run("$xs: (a, b, c) $[xs]{ $(@) $!last{,} }").unwrap(), "a , b , c");
    assert_eq!(run("$xs: (a, b, c) $[xs]{ $!first{+} $(@value) }").unwrap(), "a + b + c");
}

#[test]
fn flags_outside_iteration() {
    assert_eq!(run("$first{F} $last{L} $!first{N} $!last{M}").unwrap(), "F L");
}

#[test]
fn iteration_index_and_key() {
    assert_eq!(run("$xs: (a, b) $[xs]{ $(@index) $(@key) }").unwrap(), "0 0 1 1");
    assert_eq!(run("$m: { p: 1, q: 2 } $[m]{ $(@key) = $(@) ; }").unwrap(), "p = 1 ; q = 2 ;");
    assert_eq!(run("$x: z $[x]{ $(@) $(@index) }").unwrap(), "z 0");
}

#[test]
fn iteration_over_empty_list() {
    assert_eq!(run("$xs: () $[xs]{ x } done").unwrap(), "done");
}

#[test]
fn iteration_value_path() {
    assert_eq!(run("$xs: ({ n: a }, { n: b }) $[xs]{ $(@.n) }").unwrap(), "a b");
    assert_eq!(run("$xs: ({ n: a }) $[xs]{ $(@value.n) }").unwrap(), "a");
}

#[test]
fn nested_scoping_and_shadowing() {
    assert_eq!(run("$x: outer $first{ $x: inner $(x) } $(x)").unwrap(), "inner outer");
    assert_eq!(run("$x: outer $[x]{ $first{ $x: inner } } $(x)").unwrap(), "outer");
}

#[test]
fn nested_groups_are_expanded() {
    assert_eq!(run("$x: a f($(x), [$(x)])").unwrap(), "f (a , [a])");
}

#[test]
fn concatenation_validity() {
    assert_eq!(run("$a: foo $b: bar $#{ $(a) $(b) }").unwrap(), "foobar");
    assert_eq!(run("$a: foo $concat_ident{ $(a) _ 2 }").unwrap(), "foo_2");
    let r = fails("$a: 1 $b: 2 $#{ $(a) $(b) }");
    assert_eq!(r, Reason::NotAnIdentifier);
    assert_eq!(r.kind(), ErrorKind::Syntax);
}

#[test]
fn type_mismatches() {
    let r = fails("$xs: (1, 2) $(xs)");
    assert_eq!(r, Reason::QuoteList);
    assert_eq!(r.kind(), ErrorKind::Type);
    assert_eq!(fails("$m: { a: 1 } $(m)"), Reason::QuoteMap);
    let r = fails("$xs: (1, 2) $(xs.a)");
    assert_eq!(r, Reason::ListByIdent);
    assert_eq!(r.kind(), ErrorKind::Type);
    let r = fails("$m: { a: 1 } $(m.0)");
    assert_eq!(r, Reason::MapByInteger);
    assert_eq!(r.kind(), ErrorKind::Type);
    assert_eq!(fails("$x: a $(x.b)"), Reason::NotIndexable);
}

#[test]
fn out_of_context_accessors() {
    let r = fails("$(@index)");
    assert_eq!(r, Reason::IndexOutsideIter);
    assert_eq!(r.kind(), ErrorKind::Scope);
    assert_eq!(fails("$(@key)"), Reason::KeyOutsideIter);
    assert_eq!(fails("$(@)"), Reason::ValueOutsideIter);
}

#[test]
fn captured_stream() {
    assert_eq!(run("$x: a $s: {{ f($(x)) }} $x: b $(s) $(x)").unwrap(), "f (a) b");
}

#[test]
fn reference_keeps_item() {
    assert_eq!(run("$xs: (1, 2) $ys: @(xs) $len(ys)").unwrap(), "2");
}

#[test]
fn directive_in_value_position() {
    assert_eq!(run("$x: a $y: $(x) $(y)").unwrap(), "a");
    assert_eq!(run("$s: {{ p q }} $y: $(s) $(y)").unwrap(), "q p");
}

#[test]
fn syntax_errors() {
    assert_eq!(fails("$"), Reason::UnexpectedEnd);
    assert_eq!(fails("$x"), Reason::UnexpectedEnd);
    assert_eq!(fails("$foo{ a }"), Reason::UnknownModifier);
    assert_eq!(fails("$foo( a )"), Reason::UnknownModifier);
    assert_eq!(fails("$!foo{ a }"), Reason::UnknownModifier);
    assert_eq!(fails("$;"), Reason::UnexpectedToken);
    assert_eq!(fails("$x: $$"), Reason::UnexpectedToken);
    assert_eq!(fails("$x: $y: 1"), Reason::UnexpectedAssignment);
    assert_eq!(fails("$xs: (1 2)"), Reason::UnexpectedToken);
    assert_eq!(fails("$m: { a 1 }"), Reason::UnexpectedToken);
    assert_eq!(fails("$(y)"), Reason::ItemNotFound);
    assert_eq!(fails("$(0)"), Reason::ScopeByInteger);
    assert_eq!(Reason::UnexpectedEnd.kind(), ErrorKind::EndOfInput);
    assert_eq!(Reason::UnexpectedToken.message(), "unexpected token");
}

#[test]
fn numerals() {
    assert_eq!(decimal_chars(0), chars("0"));
    assert_eq!(decimal_chars(907), chars("907"));
    assert_eq!(parse_index(&chars("42")), Some(42));
    assert_eq!(parse_index(&chars("+7")), Some(7));
    assert_eq!(parse_index(&chars("")), None);
    assert_eq!(parse_index(&chars("1_0")), None);
    assert_eq!(parse_index(&chars("99999999999999999999999")), None);
}

#[test]
fn concatenated_text_drops_spaces() {
    let ts = toks("a \"x y\" (b)");
    assert_eq!(concat_text(&ts), chars("a\"xy\"(b)"));
}

#[test]
fn concatenated_identifier_token() {
    let span = Span { lo: 1, hi: 2 };
    let block = Span { lo: 2, hi: 2 };
    match concat_ident_token(Some(chars("ab")), span, block) {
        Ok(Token::Ident(s, sp)) => {
            assert_eq!(s, chars("ab"));
            assert_eq!(sp, span);
        },
        _ => panic!("expected an identifier"),
    }
    let e = concat_ident_token(None, span, block).err().unwrap();
    assert_eq!(e.span, block);
    assert_eq!(e.reason, Reason::NotAnIdentifier);
}

#[test]
fn concatenation_rejects_keywords() {
    assert_eq!(fails("$#{ f n }"), Reason::NotAnIdentifier);
    assert_eq!(run("$#{ f n x }").unwrap(), "fnx");
}

#[test]
fn map_iteration_keeps_binding_order() {
    assert_eq!(run("$m: { b: 1, a: 2, b: 3 } $[m]{ $(@key) $(@index) $(@) }").unwrap(), "b 0 3 a 1 2");
}

#[test]
fn step_limit_is_a_limit_error() {
    assert_eq!(Reason::StepLimit.kind(), ErrorKind::Limit);
}

#[test]
fn empty_braces_are_an_empty_map() {
    assert_eq!(run("$m: {} $len(m)").unwrap(), "0");
    assert_eq!(fails("$m: { {a} x }"), Reason::UnexpectedToken);
    assert_eq!(run("$s: {{a}} $(s)").unwrap(), "a");
}

#[test]
fn concatenation_beyond_ascii() {
    assert_eq!(run("$a: caf $#{ $(a) é }").unwrap(), "café");
    assert_eq!(fails("$#{ a - b }"), Reason::NotAnIdentifier);
}
