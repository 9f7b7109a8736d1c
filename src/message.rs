use vstd::prelude::*;

use crate::args::{
    arg_error, arg_ids, args_exact, args_in_range, check_args, first_out_of_range, lowest_unused,
    CreateMessageError, Segment,
};
use crate::template::{
    message_spec, numbered_only, parse_template, piece_ids, pieces_of, push_placeholder, render,
    template_text, Piece, Token,
};
use crate::text::push_text;

verus! {

/// One segment of a [`ConstMessage`].
#[derive(Debug, Clone, PartialEq, Eq)]
pub enum MessageFormat {
    Text(String),
    StaticText(&'static str),
    Arg(usize),
}

impl View for MessageFormat {
    type V = Piece;

    open spec fn view(&self) -> Piece {
        match self {
            MessageFormat::Text(s) => Piece::Lit(s@),
            MessageFormat::StaticText(s) => Piece::Lit(s@),
            MessageFormat::Arg(n) => Piece::Arg(*n),
        }
    }
}

impl Segment for MessageFormat {
    open spec fn spec_arg(&self) -> Option<usize> {
        match self {
            MessageFormat::Arg(n) => Some(*n),
            _ => None,
        }
    }

    fn arg(&self) -> (r: Option<usize>) {
        match self {
            MessageFormat::Arg(n) => Some(*n),
            _ => None,
        }
    }
}

/// A message of `N` arguments, over owned or static segments.
#[derive(Debug, Clone, PartialEq, Eq)]
pub enum ConstMessage<const N: usize> {
    Vec(Vec<MessageFormat>),
    Static(&'static [MessageFormat]),
}

/// Errors of [`ConstMessage::const_check`].
#[derive(Debug, Clone, PartialEq, Eq, Structural)]
pub enum ConstMessageError {
    InvalidNumber { number: usize, n: usize },
    WithoutNumber { number: usize, n: usize },
}

/// What validating `fs` against `n` arguments reports, as [`ConstMessageError`]:
/// the first out-of-range placeholder in order, else the lowest unused index.
pub open spec fn const_arg_error(fs: Seq<MessageFormat>, n: usize) -> Option<ConstMessageError> {
    match first_out_of_range(arg_ids(fs), n, 0) {
        Some(a) => Some(ConstMessageError::InvalidNumber { number: a, n }),
        None => match lowest_unused(arg_ids(fs), n, 0) {
            Some(k) => Some(ConstMessageError::WithoutNumber { number: k, n }),
            None => None,
        },
    }
}

/// No segment is static text: every text segment is owned.
pub open spec fn owned_texts(fs: Seq<MessageFormat>) -> bool {
    forall|i: int| 0 <= i < fs.len() ==> !(#[trigger] fs[i] is StaticText)
}

/// The arguments as texts.
pub open spec fn arg_texts(args: Seq<&str>) -> Seq<Seq<char>> {
    args.map_values(|a: &str| a@)
}

pub open spec fn pieces_of_formats(fs: Seq<MessageFormat>) -> Seq<Piece> {
    fs.map_values(|f: MessageFormat| f@)
}

proof fn lemma_ids_of_formats(fs: Seq<MessageFormat>)
    ensures
        arg_ids(fs) == piece_ids(pieces_of_formats(fs)),
{
    assert(arg_ids(fs) =~= piece_ids(pieces_of_formats(fs)));
}

/// The segments for parsed pieces, if none is a named reference.
fn formats_from_tokens(ts: &Vec<Token>) -> (r: Option<Vec<MessageFormat>>)
    ensures
        r is Some <==> numbered_only(pieces_of(ts@)),
        r matches Some(fs) ==> pieces_of_formats(fs@) == pieces_of(ts@) && owned_texts(fs@),
{
    let mut fs: Vec<MessageFormat> = Vec::new();
    let mut k: usize = 0;
    while k < ts.len()
        invariant
            k <= ts@.len(),
            pieces_of_formats(fs@) == pieces_of(ts@).take(k as int),
            numbered_only(pieces_of(ts@).take(k as int)),
            owned_texts(fs@),
        decreases ts@.len() - k,
    {
        let ghost ps = pieces_of(ts@);
        match &ts[k] {
            Token::Text(t) => fs.push(MessageFormat::Text(t.clone())),
            Token::Arg(n) => fs.push(MessageFormat::Arg(*n)),
            Token::Name(_) => {
                assert(ps[k as int] is Name);
                return None;
            },
        }
        assert(ps.take(k + 1) == ps.take(k as int).push(ps[k as int]));
        assert(pieces_of_formats(fs@) =~= ps.take(k + 1));
        k = k + 1;
    }
    assert(pieces_of(ts@).take(ts@.len() as int) == pieces_of(ts@));
    Some(fs)
}

impl<const N: usize> ConstMessage<N> {
    pub open spec fn spec_formats(&self) -> Seq<MessageFormat> {
        match self {
            ConstMessage::Vec(v) => v@,
            ConstMessage::Static(s) => s@,
        }
    }

    /// The message is well formed: its placeholder indices are exactly `0..N`.
    pub open spec fn wf(&self) -> bool {
        args_exact(arg_ids(self.spec_formats()), N)
    }

    /// Builds a message over static segments whose placeholder indices must
    /// be exactly `0..N`.
    pub fn new_static(formats: &'static [MessageFormat]) -> (r: Self)
        requires
            args_exact(arg_ids(formats@), N),
        ensures
            r == ConstMessage::<N>::Static(formats),
            r.wf(),
    {
        ConstMessage::Static(formats)
    }

    /// Checks that the placeholder indices of `formats` are exactly `0..N`:
    /// the first index at or above `N` is reported, else the lowest unused one.
    pub fn const_check(formats: &[MessageFormat]) -> (r: Result<&[MessageFormat], ConstMessageError>)
        ensures
            r matches Ok(f) ==> f@ == formats@,
            r is Ok <==> arg_error(arg_ids(formats@), N) is None,
            r matches Err(e) ==> Some(e) == const_arg_error(formats@, N),
    {
        match check_args(formats, N) {
            Ok(()) => Ok(formats),
            Err(CreateMessageError::InvalidNumber { number, n }) => Err(
                ConstMessageError::InvalidNumber { number, n },
            ),
            Err(CreateMessageError::WithoutNumber { number, n }) => Err(
                ConstMessageError::WithoutNumber { number, n },
            ),
            Err(CreateMessageError::EmptyPlaceholder) => {
                proof {
                    assert(false);
                }
                Err(ConstMessageError::InvalidNumber { number: 0, n: N })
            },
        }
    }

    /// Builds a message over owned segments, checking its placeholder indices.
    pub fn new(formats: Vec<MessageFormat>) -> (r: Result<Self, ConstMessageError>)
        ensures
            r is Ok <==> arg_error(arg_ids(formats@), N) is None,
            r matches Ok(m) ==> m == ConstMessage::<N>::Vec(formats) && m.wf(),
            r matches Err(e) ==> Some(e) == const_arg_error(formats@, N),
    {
        proof {
            crate::args::lemma_arg_error_none(arg_ids(formats@), N);
        }
        match Self::const_check(formats.as_slice()) {
            Ok(_) => Ok(ConstMessage::Vec(formats)),
            Err(e) => Err(e),
        }
    }

    /// The number of arguments the message takes.
    pub fn args_len(&self) -> (r: usize)
        ensures
            r == N,
    {
        N
    }

    /// The segments of the message.
    pub fn formats(&self) -> (r: &[MessageFormat])
        ensures
            r@ == self.spec_formats(),
    {
        match self {
            ConstMessage::Vec(v) => v.as_slice(),
            ConstMessage::Static(s) => s,
        }
    }

    /// Parses a template into a message of `N` arguments: see
    /// [`crate::template::parse_template`]; named references are refused and
    /// the placeholder indices must be exactly `0..N`.
    pub fn from_str(s: &str) -> (r: Result<Self, CreateMessageError>)
        ensures
            match r {
                Ok(m) => message_spec(s@, N) == Ok::<Seq<Piece>, CreateMessageError>(
                    pieces_of_formats(m.spec_formats()),
                ) && m.wf() && m is Vec && owned_texts(m.spec_formats()),
                Err(e) => message_spec(s@, N) == Err::<Seq<Piece>, CreateMessageError>(e),
            },
    {
        let ts = match parse_template(s) {
            Ok(ts) => ts,
            Err(e) => return Err(e),
        };
        match formats_from_tokens(&ts) {
            None => Err(CreateMessageError::EmptyPlaceholder),
            Some(fs) => {
                proof {
                    lemma_ids_of_formats(fs@);
                    crate::args::lemma_arg_error_none(arg_ids(fs@), N);
                }
                match check_args(fs.as_slice(), N) {
                    Ok(()) => Ok(ConstMessage::Vec(fs)),
                    Err(e) => Err(e),
                }
            },
        }
    }

    /// The message written as a template: text as it is, each placeholder as
    /// `{index}`.
    pub fn to_template(&self) -> (r: String)
        ensures
            r@ == template_text(pieces_of_formats(self.spec_formats())),
    {
        let fs = self.formats();
        let ghost ps = pieces_of_formats(fs@);
        let mut text = String::new();
        let mut k: usize = 0;
        assert(ps.take(0) =~= Seq::<Piece>::empty());
        while k < fs.len()
            invariant
                fs@ == self.spec_formats(),
                ps == pieces_of_formats(fs@),
                k <= fs@.len(),
                text@ == template_text(ps.take(k as int)),
            decreases fs@.len() - k,
        {
            assert(ps.take(k + 1).drop_last() == ps.take(k as int));
            assert(ps.take(k + 1).last() == fs@[k as int]@);
            match &fs[k] {
                MessageFormat::Text(s) => push_text(&mut text, s.as_str()),
                MessageFormat::StaticText(s) => push_text(&mut text, s),
                MessageFormat::Arg(n) => push_placeholder(&mut text, *n),
            }
            k = k + 1;
        }
        assert(ps.take(fs@.len() as int) == ps);
        text
    }

    /// The message with each placeholder replaced by its argument.
    pub fn format(&self, args: &[&str; N]) -> (r: String)
        requires
            args_in_range(arg_ids(self.spec_formats()), N),
        ensures
            r@ == render(pieces_of_formats(self.spec_formats()), arg_texts(args@)),
    {
        let fs = self.formats();
        let ghost texts = arg_texts(args@);
        let mut text = String::new();
        let mut k: usize = 0;
        assert(pieces_of_formats(fs@).skip(0) == pieces_of_formats(fs@));
        assert(text@ + render(pieces_of_formats(fs@), texts) == render(pieces_of_formats(fs@), texts));
        while k < fs.len()
            invariant
                fs@ == self.spec_formats(),
                args_in_range(arg_ids(fs@), N),
                k <= fs@.len(),
                texts == arg_texts(args@),
                args@.len() == N,
                text@ + render(pieces_of_formats(fs@).skip(k as int), texts) == render(
                    pieces_of_formats(fs@),
                    texts,
                ),
            decreases fs@.len() - k,
        {
            let ghost rest = pieces_of_formats(fs@).skip(k as int);
            assert(rest.drop_first() == pieces_of_formats(fs@).skip(k + 1));
            assert(rest[0] == fs@[k as int]@);
            let ghost before = text@;
            match &fs[k] {
                MessageFormat::Text(s) => push_text(&mut text, s.as_str()),
                MessageFormat::StaticText(s) => push_text(&mut text, s),
                MessageFormat::Arg(n) => {
                    assert(arg_ids(fs@)[k as int] == Some(*n));
                    push_text(&mut text, args[*n]);
                },
            }
            assert(text@ + render(rest.drop_first(), texts) == before + render(rest, texts));
            k = k + 1;
        }
        assert(pieces_of_formats(fs@).skip(fs@.len() as int).len() == 0);
        assert(text@ + Seq::<char>::empty() == text@);
        text
    }
}

/// Checks that a message built for `N` arguments is the one a place for `M`
/// arguments expects.
pub struct CheckConstMessageArg<const M: usize>;

impl<const M: usize> CheckConstMessageArg<M> {
    /// The message, as one of `M` arguments; the counts must agree.
    pub fn check<const N: usize>(arg: ConstMessage<N>) -> (r: ConstMessage<M>)
        requires
            N == M,
        ensures
            r.spec_formats() == arg.spec_formats(),
            r is Vec <==> arg is Vec,
    {
        match arg {
            ConstMessage::Vec(v) => ConstMessage::Vec(v),
            ConstMessage::Static(s) => ConstMessage::Static(s),
        }
    }
}

} // verus!
