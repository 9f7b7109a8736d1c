use vstd::prelude::*;

use crate::args::{arg_error, CreateMessageError};
use crate::text::{chars_of, push_char};

verus! {

/// One piece of a parsed template, as a mathematical value.
pub enum Piece {
    Lit(Seq<char>),
    Arg(usize),
    Name(Seq<char>),
}

/// One piece of a parsed template: literal text, a numbered placeholder, or a
/// reference to a named value that the caller resolves.
#[derive(Debug, Clone, PartialEq, Eq)]
pub enum Token {
    Text(String),
    Arg(usize),
    Name(String),
}

impl View for Token {
    type V = Piece;

    open spec fn view(&self) -> Piece {
        match self {
            Token::Text(s) => Piece::Lit(s@),
            Token::Arg(n) => Piece::Arg(*n),
            Token::Name(s) => Piece::Name(s@),
        }
    }
}

pub open spec fn pieces_of(ts: Seq<Token>) -> Seq<Piece> {
    ts.map_values(|t: Token| t@)
}

pub open spec fn is_digit(c: char) -> bool {
    '0' <= c && c <= '9'
}

pub open spec fn digit_value(c: char) -> nat {
    (c as u32 - '0' as u32) as nat
}

pub open spec fn all_digits(s: Seq<char>) -> bool {
    forall|i: int| 0 <= i < s.len() ==> is_digit(#[trigger] s[i])
}

/// The number written in decimal by the digits `s`.
pub open spec fn digits_value(s: Seq<char>) -> nat
    decreases s.len(),
{
    if s.len() == 0 {
        0
    } else {
        digits_value(s.drop_last()) * 10 + digit_value(s.last())
    }
}

/// The index a run of digits names, saturated at `usize::MAX` (which no
/// argument count can admit).
pub open spec fn index_of_digits(s: Seq<char>) -> usize {
    if digits_value(s) > usize::MAX {
        usize::MAX
    } else {
        digits_value(s) as usize
    }
}

/// What the text between braces stands for.
pub open spec fn placeholder_piece(inner: Seq<char>) -> Piece {
    if all_digits(inner) {
        Piece::Arg(index_of_digits(inner))
    } else {
        Piece::Name(inner)
    }
}

/// The position of the first `}` at or after `i`, or the length if none.
pub open spec fn find_close(c: Seq<char>, i: int) -> int
    decreases c.len() - i,
{
    if i < 0 || i >= c.len() {
        c.len() as int
    } else if c[i] == '}' {
        i
    } else {
        find_close(c, i + 1)
    }
}

pub open spec fn flush(lit: Seq<char>) -> Seq<Piece> {
    if lit.len() == 0 {
        Seq::empty()
    } else {
        seq![Piece::Lit(lit)]
    }
}

/// Parsing `c` from position `i` with the pending literal text `lit`.
pub open spec fn parse_from(c: Seq<char>, i: int, lit: Seq<char>) -> Result<
    Seq<Piece>,
    CreateMessageError,
>
    decreases c.len() - i,
{
    if i < 0 || i >= c.len() {
        Ok(flush(lit))
    } else if c[i] == '{' {
        let j = find_close(c, i + 1);
        if j >= c.len() || j <= i + 1 {
            Err(CreateMessageError::EmptyPlaceholder)
        } else {
            match parse_from(c, j + 1, Seq::empty()) {
                Ok(rest) => Ok(flush(lit) + seq![placeholder_piece(c.subrange(i + 1, j))] + rest),
                Err(e) => Err(e),
            }
        }
    } else if c[i] == '\\' {
        if i + 1 < c.len() {
            if c[i + 1] == '{' {
                parse_from(c, i + 2, lit.push('{'))
            } else {
                parse_from(c, i + 2, lit.push('\\').push(c[i + 1]))
            }
        } else {
            parse_from(c, i + 1, lit.push('\\'))
        }
    } else {
        parse_from(c, i + 1, lit.push(c[i]))
    }
}

/// The pieces of the template `c`: literal runs (with `\{` read as `{`),
/// numbered placeholders and named references, in order.
pub open spec fn parse_spec(c: Seq<char>) -> Result<Seq<Piece>, CreateMessageError> {
    parse_from(c, 0, Seq::empty())
}

pub open spec fn prepend(out: Seq<Piece>, r: Result<Seq<Piece>, CreateMessageError>) -> Result<
    Seq<Piece>,
    CreateMessageError,
> {
    match r {
        Ok(rest) => Ok(out + rest),
        Err(e) => Err(e),
    }
}

fn digits_to_index(inner: &Vec<char>) -> (r: Option<usize>)
    ensures
        r == (if all_digits(inner@) {
            Some(index_of_digits(inner@))
        } else {
            None::<usize>
        }),
{
    let mut v: usize = 0;
    let mut k: usize = 0;
    while k < inner.len()
        invariant
            k <= inner@.len(),
            all_digits(inner@.take(k as int)),
            v == index_of_digits(inner@.take(k as int)),
        decreases inner@.len() - k,
    {
        let ch = inner[k];
        if !('0' <= ch && ch <= '9') {
            assert(!is_digit(inner@[k as int]));
            return None;
        }
        let d: usize = (ch as u32 - '0' as u32) as usize;
        let ghost pre = inner@.take(k as int);
        let ghost next = inner@.take(k + 1);
        assert(next.drop_last() == pre);
        assert(next.last() == ch);
        assert(digits_value(next) == digits_value(pre) * 10 + d);
        assert(d <= 9);
        if v == usize::MAX {
            assert(digits_value(pre) >= usize::MAX);
            assert(digits_value(next) >= usize::MAX) by (nonlinear_arith)
                requires
                    digits_value(next) == digits_value(pre) * 10 + d,
                    digits_value(pre) >= usize::MAX,
            ;
        } else if v > (usize::MAX - d) / 10 {
            assert(digits_value(pre) == v);
            assert(v * 10 + d > usize::MAX) by (nonlinear_arith)
                requires
                    v > (usize::MAX - d) / 10,
                    d <= 9,
            ;
            v = usize::MAX;
        } else {
            assert(digits_value(pre) == v);
            assert(v * 10 + d <= usize::MAX) by (nonlinear_arith)
                requires
                    v <= (usize::MAX - d) / 10,
                    d <= 9,
            ;
            v = v * 10 + d;
        }
        assert(all_digits(next)) by {
            assert forall|m: int| 0 <= m < next.len() implies is_digit(#[trigger] next[m]) by {
                if m < k {
                    assert(next[m] == pre[m]);
                }
            }
        }
        k = k + 1;
    }
    assert(inner@.take(inner@.len() as int) == inner@);
    Some(v)
}

fn string_of(cs: &Vec<char>) -> (r: String)
    ensures
        r@ == cs@,
{
    let mut r = String::new();
    let mut k: usize = 0;
    while k < cs.len()
        invariant
            k <= cs@.len(),
            r@ == cs@.take(k as int),
        decreases cs@.len() - k,
    {
        push_char(&mut r, cs[k]);
        assert(cs@.take(k + 1) == cs@.take(k as int).push(cs@[k as int]));
        k = k + 1;
    }
    assert(cs@.take(cs@.len() as int) == cs@);
    r
}

fn flush_into(out: &mut Vec<Token>, lit: &Vec<char>)
    ensures
        pieces_of(final(out)@) == pieces_of(old(out)@) + flush(lit@),
{
    if lit.len() > 0 {
        let s = string_of(lit);
        out.push(Token::Text(s));
        assert(pieces_of(final(out)@) == pieces_of(old(out)@) + flush(lit@));
    } else {
        assert(pieces_of(final(out)@) == pieces_of(old(out)@) + flush(lit@));
    }
}

/// Splits a template into its pieces. `{` opens a placeholder that runs to the
/// next `}`: digits give a numbered placeholder, other text a named reference;
/// an empty or unclosed placeholder is an error. `\{` is a literal `{`; a
/// backslash before anything else is kept as it is.
pub fn parse_template(s: &str) -> (r: Result<Vec<Token>, CreateMessageError>)
    ensures
        match r {
            Ok(ts) => parse_spec(s@) == Ok::<Seq<Piece>, CreateMessageError>(pieces_of(ts@)),
            Err(e) => parse_spec(s@) == Err::<Seq<Piece>, CreateMessageError>(e),
        },
{
    let c = chars_of(s);
    let ghost cs = c@;
    let mut out: Vec<Token> = Vec::new();
    let mut lit: Vec<char> = Vec::new();
    let mut i: usize = 0;
    while i < c.len()
        invariant
            cs == s@,
            c@ == cs,
            i <= cs.len(),
            parse_spec(cs) == prepend(pieces_of(out@), parse_from(cs, i as int, lit@)),
        decreases cs.len() - i,
    {
        let ch = c[i];
        if ch == '{' {
            let ghost before = pieces_of(out@);
            let ghost lit0 = lit@;
            let mut j: usize = i + 1;
            let mut inner: Vec<char> = Vec::new();
            while j < c.len() && c[j] != '}'
                invariant
                    c@ == cs,
                    i + 1 <= j <= cs.len(),
                    find_close(cs, i + 1) == find_close(cs, j as int),
                    inner@ == cs.subrange(i + 1, j as int),
                decreases cs.len() - j,
            {
                inner.push(c[j]);
                j = j + 1;
            }
            assert(j == find_close(cs, i + 1));
            if j >= c.len() || j == i + 1 {
                return Err(CreateMessageError::EmptyPlaceholder);
            }
            flush_into(&mut out, &lit);
            lit = Vec::new();
            let tok = match digits_to_index(&inner) {
                Some(n) => Token::Arg(n),
                None => Token::Name(string_of(&inner)),
            };
            assert(tok@ == placeholder_piece(cs.subrange(i + 1, j as int)));
            out.push(tok);
            proof {
                assert(pieces_of(out@) == before + flush(lit0) + seq![tok@]);
                let r = parse_from(cs, j + 1, Seq::empty());
                match r {
                    Ok(rest) => {
                        assert(before + flush(lit0) + seq![tok@] + rest == before + (flush(lit0)
                            + seq![tok@] + rest));
                    },
                    Err(e) => {},
                }
            }
            i = j + 1;
        } else if ch == '\\' {
            if i + 1 < c.len() {
                let next = c[i + 1];
                if next == '{' {
                    lit.push('{');
                } else {
                    lit.push('\\');
                    lit.push(next);
                }
                i = i + 2;
            } else {
                lit.push('\\');
                i = i + 1;
            }
        } else {
            lit.push(ch);
            i = i + 1;
        }
    }
    flush_into(&mut out, &lit);
    assert(pieces_of(out@) == pieces_of(out@) + Seq::<Piece>::empty());
    Ok(out)
}

/// How a piece is written in a template: literal text as it is, a
/// placeholder as `{index}`, a named reference as `{name}`.
pub open spec fn piece_template(p: Piece) -> Seq<char> {
    match p {
        Piece::Lit(t) => t,
        Piece::Arg(k) => seq!['{'] + crate::args::decimal(k as nat) + seq!['}'],
        Piece::Name(n) => seq!['{'] + n + seq!['}'],
    }
}

/// The pieces written out as a template, in order.
pub open spec fn template_text(ps: Seq<Piece>) -> Seq<char>
    decreases ps.len(),
{
    if ps.len() == 0 {
        Seq::empty()
    } else {
        template_text(ps.drop_last()) + piece_template(ps.last())
    }
}

/// Appends a placeholder for the argument `k`.
pub fn push_placeholder(s: &mut String, k: usize)
    ensures
        final(s)@ == old(s)@ + piece_template(Piece::Arg(k)),
{
    push_char(s, '{');
    crate::refer::push_decimal(s, k as u128);
    push_char(s, '}');
    assert(final(s)@ =~= old(s)@ + piece_template(Piece::Arg(k)));
}

/// The argument index a piece stands for, if it is a numbered placeholder.
pub open spec fn piece_arg(p: Piece) -> Option<usize> {
    match p {
        Piece::Arg(k) => Some(k),
        _ => None,
    }
}

pub open spec fn piece_ids(ps: Seq<Piece>) -> Seq<Option<usize>> {
    ps.map_values(|p: Piece| piece_arg(p))
}

/// No piece is a named reference.
pub open spec fn numbered_only(ps: Seq<Piece>) -> bool {
    forall|i: int| 0 <= i < ps.len() ==> !(#[trigger] ps[i] is Name)
}

/// What building a message of `n` arguments from the template `s` gives: its
/// pieces, or the first error. Named references are not admitted here.
pub open spec fn message_spec(s: Seq<char>, n: usize) -> Result<Seq<Piece>, CreateMessageError> {
    match parse_spec(s) {
        Err(e) => Err(e),
        Ok(ps) => if !numbered_only(ps) {
            Err(CreateMessageError::EmptyPlaceholder)
        } else {
            match arg_error(piece_ids(ps), n) {
                Some(e) => Err(e),
                None => Ok(ps),
            }
        },
    }
}

/// The text a piece stands for, given the argument texts. A named reference
/// stands for nothing until it is resolved.
pub open spec fn render_piece(p: Piece, args: Seq<Seq<char>>) -> Seq<char> {
    match p {
        Piece::Lit(t) => t,
        Piece::Arg(k) => if k < args.len() {
            args[k as int]
        } else {
            Seq::empty()
        },
        Piece::Name(_) => Seq::empty(),
    }
}

/// The concatenation of the texts the pieces stand for, in order.
pub open spec fn render(ps: Seq<Piece>, args: Seq<Seq<char>>) -> Seq<char>
    decreases ps.len(),
{
    if ps.len() == 0 {
        Seq::empty()
    } else {
        render_piece(ps[0], args) + render(ps.drop_first(), args)
    }
}

/// The template `c` from position `i` with each placeholder replaced by its
/// argument text and `\{` by `{`, read directly off the characters.
pub open spec fn substitute(c: Seq<char>, i: int, args: Seq<Seq<char>>) -> Seq<char>
    decreases c.len() - i,
{
    if i < 0 || i >= c.len() {
        Seq::empty()
    } else if c[i] == '{' {
        let j = find_close(c, i + 1);
        if j >= c.len() || j <= i + 1 {
            Seq::empty()
        } else {
            let inner = c.subrange(i + 1, j);
            let here = if all_digits(inner) && index_of_digits(inner) < args.len() {
                args[index_of_digits(inner) as int]
            } else {
                Seq::empty()
            };
            here + substitute(c, j + 1, args)
        }
    } else if c[i] == '\\' {
        if i + 1 < c.len() {
            if c[i + 1] == '{' {
                seq!['{'] + substitute(c, i + 2, args)
            } else {
                seq!['\\', c[i + 1]] + substitute(c, i + 2, args)
            }
        } else {
            seq!['\\']
        }
    } else {
        seq![c[i]] + substitute(c, i + 1, args)
    }
}

/// Rendering distributes over concatenation.
pub proof fn lemma_render_concat(a: Seq<Piece>, b: Seq<Piece>, args: Seq<Seq<char>>)
    ensures
        render(a + b, args) == render(a, args) + render(b, args),
    decreases a.len(),
{
    if a.len() == 0 {
        assert(a + b == b);
    } else {
        assert((a + b).drop_first() == a.drop_first() + b);
        lemma_render_concat(a.drop_first(), b, args);
        assert(render(a + b, args) == render_piece(a[0], args) + render(a.drop_first() + b, args));
    }
}

proof fn lemma_render_one(p: Piece, args: Seq<Seq<char>>)
    ensures
        render(seq![p], args) == render_piece(p, args),
{
    let one = seq![p];
    assert(one.drop_first() == Seq::<Piece>::empty());
    assert(render(one.drop_first(), args) == Seq::<char>::empty());
    assert(render_piece(p, args) + Seq::<char>::empty() == render_piece(p, args));
    assert(render(one, args) == render_piece(one[0], args) + render(one.drop_first(), args));
}

proof fn lemma_render_flush(lit: Seq<char>, args: Seq<Seq<char>>)
    ensures
        render(flush(lit), args) == lit,
{
    if lit.len() == 0 {
        assert(lit == Seq::<char>::empty());
    } else {
        lemma_render_one(Piece::Lit(lit), args);
    }
}

proof fn lemma_parse_render(c: Seq<char>, i: int, lit: Seq<char>, args: Seq<Seq<char>>)
    requires
        0 <= i,
        parse_from(c, i, lit) is Ok,
    ensures
        render(parse_from(c, i, lit)->Ok_0, args) == lit + substitute(c, i, args),
    decreases c.len() - i,
{
    if i >= c.len() {
        lemma_render_flush(lit, args);
        assert(lit + Seq::<char>::empty() == lit);
    } else if c[i] == '{' {
        let j = find_close(c, i + 1);
        let inner = c.subrange(i + 1, j);
        let pp = placeholder_piece(inner);
        let rest = parse_from(c, j + 1, Seq::empty())->Ok_0;
        lemma_parse_render(c, j + 1, Seq::empty(), args);
        assert(Seq::<char>::empty() + substitute(c, j + 1, args) == substitute(c, j + 1, args));
        lemma_render_concat(flush(lit) + seq![pp], rest, args);
        lemma_render_concat(flush(lit), seq![pp], args);
        lemma_render_flush(lit, args);
        lemma_render_one(pp, args);
        assert(render_piece(pp, args) == (if all_digits(inner) && index_of_digits(inner)
            < args.len() {
            args[index_of_digits(inner) as int]
        } else {
            Seq::empty()
        }));
        assert(lit + render_piece(pp, args) + substitute(c, j + 1, args) == lit + (render_piece(
            pp,
            args,
        ) + substitute(c, j + 1, args)));
    } else if c[i] == '\\' {
        if i + 1 < c.len() {
            if c[i + 1] == '{' {
                lemma_parse_render(c, i + 2, lit.push('{'), args);
                assert(lit.push('{') + substitute(c, i + 2, args) == lit + (seq!['{'] + substitute(
                    c,
                    i + 2,
                    args,
                )));
            } else {
                lemma_parse_render(c, i + 2, lit.push('\\').push(c[i + 1]), args);
                assert(lit.push('\\').push(c[i + 1]) + substitute(c, i + 2, args) == lit + (seq![
                    '\\',
                    c[i + 1],
                ] + substitute(c, i + 2, args)));
            }
        } else {
            lemma_parse_render(c, i + 1, lit.push('\\'), args);
            assert(substitute(c, i + 1, args) == Seq::<char>::empty());
            assert(lit.push('\\') + Seq::<char>::empty() == lit + seq!['\\']);
        }
    } else {
        lemma_parse_render(c, i + 1, lit.push(c[i]), args);
        assert(lit.push(c[i]) + substitute(c, i + 1, args) == lit + (seq![c[i]] + substitute(
            c,
            i + 1,
            args,
        )));
    }
}

/// Parsing a template and rendering its pieces gives the template with each
/// placeholder replaced by its argument, in the original order.
pub proof fn lemma_round_trip(t: Seq<char>, args: Seq<Seq<char>>)
    requires
        parse_spec(t) is Ok,
    ensures
        render(parse_spec(t)->Ok_0, args) == substitute(t, 0, args),
{
    lemma_parse_render(t, 0, Seq::empty(), args);
    assert(Seq::<char>::empty() + substitute(t, 0, args) == substitute(t, 0, args));
}

} // verus!
