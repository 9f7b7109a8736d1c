use vstd::prelude::*;

use crate::args::CreateMessageError;
use crate::message::{pieces_of_formats, MessageFormat};
use crate::refer::{pieces_of_refs, RefMessageFormat};
use crate::template::{pieces_of, Piece, Token};
use crate::text::same_text;

verus! {

/// The piece the first entry named `name` stands for, from position `i`.
pub open spec fn lookup_name(names: Seq<(Seq<char>, Piece)>, name: Seq<char>, i: int) -> Option<
    Piece,
>
    decreases names.len() - i,
{
    if i < 0 || i >= names.len() {
        None
    } else if names[i].0 == name {
        Some(names[i].1)
    } else {
        lookup_name(names, name, i + 1)
    }
}

/// Every named reference of `ps` has a value among `names`.
pub open spec fn all_resolved(ps: Seq<Piece>, names: Seq<(Seq<char>, Piece)>) -> bool {
    forall|i: int|
        0 <= i < ps.len() ==> match #[trigger] ps[i] {
            Piece::Name(n) => lookup_name(names, n, 0) is Some,
            _ => true,
        }
}

/// The pieces with each named reference replaced by its value.
pub open spec fn resolve_pieces(ps: Seq<Piece>, names: Seq<(Seq<char>, Piece)>) -> Seq<Piece> {
    ps.map_values(
        |p: Piece|
            match p {
                Piece::Name(n) => lookup_name(names, n, 0)->Some_0,
                _ => p,
            },
    )
}

/// Named texts, as pieces.
pub open spec fn text_names(names: Seq<(&str, &str)>) -> Seq<(Seq<char>, Piece)> {
    names.map_values(|e: (&str, &str)| (e.0@, Piece::Lit(e.1@)))
}

/// Named segments, as pieces.
pub open spec fn ref_names<'a>(names: Seq<(&'a str, RefMessageFormat<'a>)>) -> Seq<(Seq<char>, Piece)> {
    names.map_values(|e: (&'a str, RefMessageFormat<'a>)| (e.0@, e.1@))
}

fn find_text(names: &[(&str, &str)], name: &str) -> (r: Option<usize>)
    ensures
        match r {
            Some(j) => j < names@.len() && lookup_name(text_names(names@), name@, 0) == Some(
                Piece::Lit(names@[j as int].1@),
            ),
            None => lookup_name(text_names(names@), name@, 0) is None,
        },
{
    let ghost ns = text_names(names@);
    let mut k: usize = 0;
    while k < names.len()
        invariant
            ns == text_names(names@),
            k <= names@.len(),
            lookup_name(ns, name@, 0) == lookup_name(ns, name@, k as int),
        decreases names@.len() - k,
    {
        if same_text(names[k].0, name) {
            return Some(k);
        }
        k = k + 1;
    }
    None
}

/// Puts named texts into parsed pieces, giving the segments of a
/// [`crate::message::ConstMessage`]; a name without a value is an error.
pub fn resolve_texts(tokens: &Vec<Token>, names: &[(&str, &str)]) -> (r: Result<
    Vec<MessageFormat>,
    CreateMessageError,
>)
    ensures
        r is Ok <==> all_resolved(pieces_of(tokens@), text_names(names@)),
        r matches Ok(fs) ==> pieces_of_formats(fs@) == resolve_pieces(
            pieces_of(tokens@),
            text_names(names@),
        ),
        r matches Err(e) ==> e == CreateMessageError::EmptyPlaceholder,
{
    let ghost ps = pieces_of(tokens@);
    let ghost ns = text_names(names@);
    let mut fs: Vec<MessageFormat> = Vec::new();
    let mut k: usize = 0;
    while k < tokens.len()
        invariant
            ps == pieces_of(tokens@),
            ns == text_names(names@),
            k <= tokens@.len(),
            all_resolved(ps.take(k as int), ns),
            pieces_of_formats(fs@) == resolve_pieces(ps.take(k as int), ns),
        decreases tokens@.len() - k,
    {
        assert(ps[k as int] == tokens@[k as int]@);
        let f = match &tokens[k] {
            Token::Text(t) => MessageFormat::Text(t.clone()),
            Token::Arg(n) => MessageFormat::Arg(*n),
            Token::Name(n) => match find_text(names, n.as_str()) {
                Some(j) => MessageFormat::Text(names[j].1.to_owned()),
                None => {
                    assert(ps[k as int] == Piece::Name(n@));
                    return Err(CreateMessageError::EmptyPlaceholder);
                },
            },
        };
        let ghost before = fs@;
        fs.push(f);
        assert(ps.take(k + 1) == ps.take(k as int).push(ps[k as int]));
        assert(pieces_of_formats(fs@) =~= pieces_of_formats(before).push(f@));
        assert(resolve_pieces(ps.take(k + 1), ns) =~= resolve_pieces(ps.take(k as int), ns).push(
            resolve_pieces(ps.take(k + 1), ns)[k as int],
        ));
        k = k + 1;
    }
    assert(ps.take(tokens@.len() as int) == ps);
    Ok(fs)
}

fn find_ref<'a>(names: &[(&'a str, RefMessageFormat<'a>)], name: &str) -> (r: Option<usize>)
    ensures
        match r {
            Some(j) => j < names@.len() && lookup_name(ref_names(names@), name@, 0) == Some(
                names@[j as int].1@,
            ),
            None => lookup_name(ref_names(names@), name@, 0) is None,
        },
{
    let ghost ns = ref_names(names@);
    let mut k: usize = 0;
    while k < names.len()
        invariant
            ns == ref_names(names@),
            k <= names@.len(),
            lookup_name(ns, name@, 0) == lookup_name(ns, name@, k as int),
        decreases names@.len() - k,
    {
        if same_text(names[k].0, name) {
            return Some(k);
        }
        k = k + 1;
    }
    None
}

/// Puts named segments (texts or numbers) into parsed pieces, giving the
/// segments of a [`crate::refer::RefMessage`] that borrow the pieces' text;
/// a name without a value is an error.
pub fn resolve_refs<'a>(tokens: &'a Vec<Token>, names: &[(&'a str, RefMessageFormat<'a>)]) -> (r:
    Result<Vec<RefMessageFormat<'a>>, CreateMessageError>)
    ensures
        r is Ok <==> all_resolved(pieces_of(tokens@), ref_names(names@)),
        r matches Ok(fs) ==> pieces_of_refs(fs@) == resolve_pieces(
            pieces_of(tokens@),
            ref_names(names@),
        ),
        r matches Err(e) ==> e == CreateMessageError::EmptyPlaceholder,
{
    let ghost ps = pieces_of(tokens@);
    let ghost ns = ref_names(names@);
    let mut fs: Vec<RefMessageFormat<'a>> = Vec::new();
    let mut k: usize = 0;
    while k < tokens.len()
        invariant
            ps == pieces_of(tokens@),
            ns == ref_names(names@),
            k <= tokens@.len(),
            all_resolved(ps.take(k as int), ns),
            pieces_of_refs(fs@) == resolve_pieces(ps.take(k as int), ns),
        decreases tokens@.len() - k,
    {
        assert(ps[k as int] == tokens@[k as int]@);
        let f = match &tokens[k] {
            Token::Text(t) => RefMessageFormat::RefText(t.as_str()),
            Token::Arg(n) => RefMessageFormat::Placeholder(*n),
            Token::Name(n) => match find_ref(names, n.as_str()) {
                Some(j) => names[j].1,
                None => {
                    assert(ps[k as int] == Piece::Name(n@));
                    return Err(CreateMessageError::EmptyPlaceholder);
                },
            },
        };
        let ghost before = fs@;
        fs.push(f);
        assert(ps.take(k + 1) == ps.take(k as int).push(ps[k as int]));
        assert(pieces_of_refs(fs@) =~= pieces_of_refs(before).push(f@));
        assert(resolve_pieces(ps.take(k + 1), ns) =~= resolve_pieces(ps.take(k as int), ns).push(
            resolve_pieces(ps.take(k + 1), ns)[k as int],
        ));
        k = k + 1;
    }
    assert(ps.take(tokens@.len() as int) == ps);
    Ok(fs)
}

} // verus!
