use vstd::prelude::*;

use crate::args::{arg_error, arg_ids, args_exact, args_in_range, check_args, CreateMessageError, Segment};
use crate::message::arg_texts;
use crate::template::{
    lemma_round_trip, message_spec, numbered_only, parse_template, piece_ids, pieces_of,
    push_placeholder, render, substitute, template_text, Piece, Token,
};
use crate::text::push_text;

verus! {

/// One segment of an [`AllocMessage`]: owned text or a placeholder.
#[derive(Debug, Clone, PartialEq, Eq)]
pub enum AllocMessageFormat {
    AllocText(String),
    Placeholder(usize),
}

impl View for AllocMessageFormat {
    type V = Piece;

    open spec fn view(&self) -> Piece {
        match self {
            AllocMessageFormat::AllocText(s) => Piece::Lit(s@),
            AllocMessageFormat::Placeholder(k) => Piece::Arg(*k),
        }
    }
}

impl Segment for AllocMessageFormat {
    open spec fn spec_arg(&self) -> Option<usize> {
        match self {
            AllocMessageFormat::Placeholder(n) => Some(*n),
            _ => None,
        }
    }

    fn arg(&self) -> (r: Option<usize>) {
        match self {
            AllocMessageFormat::Placeholder(n) => Some(*n),
            _ => None,
        }
    }
}

pub open spec fn pieces_of_allocs(fs: Seq<AllocMessageFormat>) -> Seq<Piece> {
    fs.map_values(|f: AllocMessageFormat| f@)
}

proof fn lemma_ids_of_allocs(fs: Seq<AllocMessageFormat>)
    ensures
        arg_ids(fs) == piece_ids(pieces_of_allocs(fs)),
{
    assert(arg_ids(fs) =~= piece_ids(pieces_of_allocs(fs)));
}

/// The segments for parsed pieces, if none is a named reference.
fn allocs_from_tokens(ts: &Vec<Token>) -> (r: Option<Vec<AllocMessageFormat>>)
    ensures
        r is Some <==> numbered_only(pieces_of(ts@)),
        r matches Some(fs) ==> pieces_of_allocs(fs@) == pieces_of(ts@),
{
    let mut fs: Vec<AllocMessageFormat> = Vec::new();
    let mut k: usize = 0;
    while k < ts.len()
        invariant
            k <= ts@.len(),
            pieces_of_allocs(fs@) == pieces_of(ts@).take(k as int),
            numbered_only(pieces_of(ts@).take(k as int)),
        decreases ts@.len() - k,
    {
        let ghost ps = pieces_of(ts@);
        match &ts[k] {
            Token::Text(t) => fs.push(AllocMessageFormat::AllocText(t.clone())),
            Token::Arg(n) => fs.push(AllocMessageFormat::Placeholder(*n)),
            Token::Name(_) => {
                assert(ps[k as int] is Name);
                return None;
            },
        }
        assert(ps.take(k + 1) == ps.take(k as int).push(ps[k as int]));
        assert(pieces_of_allocs(fs@) =~= ps.take(k + 1));
        k = k + 1;
    }
    assert(pieces_of(ts@).take(ts@.len() as int) == pieces_of(ts@));
    Some(fs)
}

/// A message of `N` arguments over owned segments, whose placeholder indices
/// are exactly `0..N`.
#[derive(Debug, Clone, PartialEq, Eq)]
pub struct AllocMessage<const N: usize> {
    format: Vec<AllocMessageFormat>,
}

impl<const N: usize> AllocMessage<N> {
    pub closed spec fn spec_formats(&self) -> Seq<AllocMessageFormat> {
        self.format@
    }

    /// The message is well formed: its placeholder indices are exactly `0..N`.
    pub open spec fn wf(&self) -> bool {
        args_exact(arg_ids(self.spec_formats()), N)
    }

    /// Builds a message, checking that its placeholder indices are exactly
    /// `0..N`: the first index at or above `N` is reported, else the lowest
    /// unused one.
    pub fn new(format: Vec<AllocMessageFormat>) -> (r: Result<Self, CreateMessageError>)
        ensures
            r is Ok <==> arg_error(arg_ids(format@), N) is None,
            r matches Ok(m) ==> m.spec_formats() == format@ && m.wf(),
            r matches Err(e) ==> arg_error(arg_ids(format@), N) == Some(e),
    {
        proof {
            crate::args::lemma_arg_error_none(arg_ids(format@), N);
        }
        match check_args(format.as_slice(), N) {
            Ok(()) => Ok(AllocMessage { format }),
            Err(e) => Err(e),
        }
    }

    /// Builds a message whose placeholder indices must be exactly `0..N`.
    pub fn new_panic(format: Vec<AllocMessageFormat>) -> (r: Self)
        requires
            args_exact(arg_ids(format@), N),
        ensures
            r.spec_formats() == format@,
            r.wf(),
    {
        AllocMessage { format }
    }

    /// Parses a template into a message of `N` arguments: see
    /// [`crate::template::parse_template`]; named references are refused and
    /// the placeholder indices must be exactly `0..N`.
    pub fn from_str(s: &str) -> (r: Result<Self, CreateMessageError>)
        ensures
            match r {
                Ok(m) => message_spec(s@, N) == Ok::<Seq<Piece>, CreateMessageError>(
                    pieces_of_allocs(m.spec_formats()),
                ) && m.wf(),
                Err(e) => message_spec(s@, N) == Err::<Seq<Piece>, CreateMessageError>(e),
            },
    {
        let ts = match parse_template(s) {
            Ok(ts) => ts,
            Err(e) => return Err(e),
        };
        match allocs_from_tokens(&ts) {
            None => Err(CreateMessageError::EmptyPlaceholder),
            Some(fs) => {
                proof {
                    lemma_ids_of_allocs(fs@);
                }
                Self::new(fs)
            },
        }
    }

    /// The message with each placeholder replaced by its argument.
    pub fn format(&self, args: &[&str; N]) -> (r: String)
        requires
            self.wf(),
        ensures
            r@ == render(pieces_of_allocs(self.spec_formats()), arg_texts(args@)),
    {
        let fs = self.format.as_slice();
        let ghost texts = arg_texts(args@);
        let ghost ps = pieces_of_allocs(fs@);
        let mut text = String::new();
        let mut k: usize = 0;
        assert(ps.skip(0) == ps);
        assert(text@ + render(ps, texts) == render(ps, texts));
        while k < fs.len()
            invariant
                fs@ == self.spec_formats(),
                ps == pieces_of_allocs(fs@),
                args_in_range(arg_ids(fs@), N),
                k <= fs@.len(),
                texts == arg_texts(args@),
                args@.len() == N,
                text@ + render(ps.skip(k as int), texts) == render(ps, texts),
            decreases fs@.len() - k,
        {
            let ghost rest = ps.skip(k as int);
            assert(rest.drop_first() == ps.skip(k + 1));
            assert(rest[0] == fs@[k as int]@);
            let ghost before = text@;
            match &fs[k] {
                AllocMessageFormat::AllocText(s) => push_text(&mut text, s.as_str()),
                AllocMessageFormat::Placeholder(n) => {
                    assert(arg_ids(fs@)[k as int] == Some(*n));
                    push_text(&mut text, args[*n]);
                },
            }
            assert(text@ + render(rest.drop_first(), texts) == before + render(rest, texts));
            k = k + 1;
        }
        assert(ps.skip(fs@.len() as int).len() == 0);
        assert(text@ + Seq::<char>::empty() == text@);
        text
    }

    /// The message written as a template: text as it is, each placeholder as
    /// `{index}`.
    pub fn to_template(&self) -> (r: String)
        ensures
            r@ == template_text(pieces_of_allocs(self.spec_formats())),
    {
        let fs = self.format.as_slice();
        let ghost ps = pieces_of_allocs(fs@);
        let mut text = String::new();
        let mut k: usize = 0;
        assert(ps.take(0) =~= Seq::<Piece>::empty());
        while k < fs.len()
            invariant
                fs@ == self.spec_formats(),
                ps == pieces_of_allocs(fs@),
                k <= fs@.len(),
                text@ == template_text(ps.take(k as int)),
            decreases fs@.len() - k,
        {
            assert(ps.take(k + 1).drop_last() == ps.take(k as int));
            assert(ps.take(k + 1).last() == fs@[k as int]@);
            match &fs[k] {
                AllocMessageFormat::AllocText(s) => push_text(&mut text, s.as_str()),
                AllocMessageFormat::Placeholder(n) => push_placeholder(&mut text, *n),
            }
            k = k + 1;
        }
        assert(ps.take(fs@.len() as int) == ps);
        text
    }

    /// The number of segments.
    pub fn len(&self) -> (r: usize)
        ensures
            r == self.spec_formats().len(),
    {
        self.format.len()
    }

    /// Whether the message has no segment.
    pub fn is_empty(&self) -> (r: bool)
        ensures
            r == (self.spec_formats().len() == 0),
    {
        self.format.len() == 0
    }

    /// The segments of the message.
    pub fn formats(&self) -> (r: &Vec<AllocMessageFormat>)
        ensures
            r@ == self.spec_formats(),
    {
        &self.format
    }
}

/// A message parsed from a template formats as the template itself with each
/// placeholder replaced by its argument and each `\{` by `{`, in the
/// template's order.
pub proof fn lemma_parsed_message_formats<const N: usize>(
    t: Seq<char>,
    m: AllocMessage<N>,
    args: Seq<Seq<char>>,
)
    requires
        message_spec(t, N) == Ok::<Seq<Piece>, CreateMessageError>(
            pieces_of_allocs(m.spec_formats()),
        ),
    ensures
        render(pieces_of_allocs(m.spec_formats()), args) == substitute(t, 0, args),
{
    lemma_round_trip(t, args);
}

} // verus!
