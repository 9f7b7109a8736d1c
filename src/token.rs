use vstd::prelude::*;

use crate::args::{lowest_unused, uses_arg};
use crate::message::arg_texts;
use crate::template::{
    numbered_only, parse_spec, parse_template, piece_ids, pieces_of, render, Piece, Token,
};
use crate::text::push_text;

verus! {

/// Errors of a template whose argument count is inferred.
#[derive(Debug, Clone, PartialEq, Eq, Structural)]
pub enum MessageValueError {
    /// The argument numbered by the first field is never used, though the
    /// highest placeholder index is the second field.
    NotFound(usize, usize),
    /// A placeholder was opened and never closed, or is empty.
    EmptyPlaceholder,
    /// A placeholder names a value where only numbered ones are admitted.
    NamedReference,
}

/// The highest index among `ids`, if any.
pub open spec fn max_id(ids: Seq<Option<usize>>) -> Option<usize>
    decreases ids.len(),
{
    if ids.len() == 0 {
        None
    } else {
        let rest = max_id(ids.drop_last());
        match ids.last() {
            None => rest,
            Some(a) => match rest {
                Some(m) if m >= a => Some(m),
                _ => Some(a),
            },
        }
    }
}

/// What inferring the argument count of the pieces reports: every index up to
/// the highest must be used, and the lowest one missing is named.
pub open spec fn infer_error(ps: Seq<Piece>) -> Option<MessageValueError> {
    match max_id(piece_ids(ps)) {
        None => None,
        Some(m) => match lowest_unused(piece_ids(ps), m, 0) {
            Some(k) => Some(MessageValueError::NotFound(k, m)),
            None => None,
        },
    }
}

/// A parsed template whose argument count is one more than its highest
/// placeholder index (zero without placeholders).
#[derive(Debug, Clone)]
pub struct MessageToken {
    pub values: Vec<Token>,
    pub placeholder_max: Option<usize>,
}

impl MessageToken {
    /// The number of arguments the template takes.
    pub open spec fn spec_args(&self) -> nat {
        match self.placeholder_max {
            Some(m) => (m + 1) as nat,
            None => 0,
        }
    }

    pub fn args(&self) -> (r: usize)
        requires
            self.spec_args() <= usize::MAX,
        ensures
            r == self.spec_args(),
    {
        match self.placeholder_max {
            Some(m) => m + 1,
            None => 0,
        }
    }

    /// Takes the pieces of a template, inferring its argument count; every
    /// index up to the highest must be used.
    pub fn new(values: Vec<Token>) -> (r: Result<Self, MessageValueError>)
        ensures
            r is Ok <==> infer_error(pieces_of(values@)) is None,
            r matches Err(e) ==> infer_error(pieces_of(values@)) == Some(e),
            r matches Ok(t) ==> t.values@ == values@ && t.placeholder_max == max_id(
                piece_ids(pieces_of(values@)),
            ),
    {
        let ghost ids = piece_ids(pieces_of(values@));
        let mut max: Option<usize> = None;
        let mut i: usize = 0;
        while i < values.len()
            invariant
                i <= values@.len(),
                ids == piece_ids(pieces_of(values@)),
                max == max_id(ids.take(i as int)),
            decreases values@.len() - i,
        {
            assert(ids.take(i + 1).drop_last() == ids.take(i as int));
            assert(ids.take(i + 1).last() == ids[i as int]);
            if let Token::Arg(a) = &values[i] {
                match max {
                    Some(m) if m >= *a => {},
                    _ => {
                        max = Some(*a);
                    },
                }
            }
            i = i + 1;
        }
        assert(ids.take(values@.len() as int) == ids);
        let m = match max {
            None => {
                return Ok(MessageToken { values, placeholder_max: None });
            },
            Some(m) => m,
        };
        let mut used: Vec<bool> = Vec::new();
        let mut k: usize = 0;
        while k < m
            invariant
                k <= m,
                used@.len() == k,
                forall|j: int| 0 <= j < k ==> !used@[j],
            decreases m - k,
        {
            used.push(false);
            k = k + 1;
        }
        let mut i: usize = 0;
        while i < values.len()
            invariant
                i <= values@.len(),
                ids == piece_ids(pieces_of(values@)),
                used@.len() == m,
                forall|j: usize| j < m ==> (used@[j as int] <==> exists|p: int|
                    0 <= p < i && #[trigger] ids[p] == Some(j)),
            decreases values@.len() - i,
        {
            assert(ids[i as int] == match values@[i as int] {
                Token::Arg(a) => Some(a),
                _ => None::<usize>,
            });
            if let Token::Arg(a) = &values[i] {
                if *a < m {
                    used.set(*a, true);
                }
            }
            assert forall|j: usize| j < m implies (used@[j as int] <==> exists|p: int|
                0 <= p < i + 1 && #[trigger] ids[p] == Some(j)) by {
                if ids[i as int] == Some(j) {
                } else if !used@[j as int] {
                    assert forall|p: int| 0 <= p < i + 1 implies #[trigger] ids[p] != Some(j) by {
                        if p < i {
                        }
                    }
                }
            }
            i = i + 1;
        }
        let mut k: usize = 0;
        while k < m
            invariant
                k <= m,
                used@.len() == m,
                max_id(ids) == Some(m),
                ids == piece_ids(pieces_of(values@)),
                lowest_unused(ids, m, 0) == lowest_unused(ids, m, k),
                forall|j: usize| j < m ==> (used@[j as int] <==> uses_arg(ids, j)),
            decreases m - k,
        {
            if !used[k] {
                return Err(MessageValueError::NotFound(k, m));
            }
            k = k + 1;
        }
        Ok(MessageToken { values, placeholder_max: Some(m) })
    }

    /// The template with each numbered placeholder replaced by its argument;
    /// a placeholder without an argument, or a named reference, gives nothing.
    pub fn format(&self, args: &[&str]) -> (r: String)
        ensures
            r@ == render(pieces_of(self.values@), arg_texts(args@)),
    {
        let ts = &self.values;
        let ghost texts = arg_texts(args@);
        let ghost ps = pieces_of(ts@);
        let mut text = String::new();
        let mut k: usize = 0;
        assert(ps.skip(0) == ps);
        assert(text@ + render(ps, texts) == render(ps, texts));
        while k < ts.len()
            invariant
                ps == pieces_of(ts@),
                texts == arg_texts(args@),
                k <= ts@.len(),
                text@ + render(ps.skip(k as int), texts) == render(ps, texts),
            decreases ts@.len() - k,
        {
            let ghost rest = ps.skip(k as int);
            assert(rest.drop_first() == ps.skip(k + 1));
            assert(rest[0] == ts@[k as int]@);
            let ghost before = text@;
            match &ts[k] {
                Token::Text(s) => push_text(&mut text, s.as_str()),
                Token::Arg(n) => {
                    if *n < args.len() {
                        push_text(&mut text, args[*n]);
                    }
                },
                Token::Name(_) => {},
            }
            assert(text@ + render(rest.drop_first(), texts) == before + render(rest, texts));
            k = k + 1;
        }
        assert(ps.skip(ts@.len() as int).len() == 0);
        assert(text@ + Seq::<char>::empty() == text@);
        text
    }

    /// Parses a template (see [`crate::template::parse_template`]) and infers
    /// its argument count.
    pub fn from_str(s: &str) -> (r: Result<Self, MessageValueError>)
        ensures
            match parse_spec(s@) {
                Err(_) => r == Err::<Self, MessageValueError>(MessageValueError::EmptyPlaceholder),
                Ok(ps) => (r is Ok <==> infer_error(ps) is None) && (r matches Err(e)
                    ==> infer_error(ps) == Some(e)) && (r matches Ok(t) ==> pieces_of(t.values@)
                    == ps && t.placeholder_max == max_id(piece_ids(ps))),
            },
    {
        match parse_template(s) {
            Err(_) => Err(MessageValueError::EmptyPlaceholder),
            Ok(ts) => Self::new(ts),
        }
    }
}

/// Whether some piece is a named reference.
pub fn has_named_reference(ts: &Vec<Token>) -> (r: bool)
    ensures
        r == !numbered_only(pieces_of(ts@)),
{
    let ghost ps = pieces_of(ts@);
    let mut k: usize = 0;
    while k < ts.len()
        invariant
            ps == pieces_of(ts@),
            k <= ts@.len(),
            forall|m: int| 0 <= m < k ==> !(#[trigger] ps[m] is Name),
        decreases ts@.len() - k,
    {
        assert(ps[k as int] == ts@[k as int]@);
        if let Token::Name(_) = &ts[k] {
            return true;
        }
        k = k + 1;
    }
    false
}

} // verus!
