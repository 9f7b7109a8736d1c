use vstd::prelude::*;
use vstd::string::StringSliceAdditionalSpecFns;

use crate::args::{arg_error, arg_ids, args_exact, args_in_range, check_args, CreateMessageError, Segment};
use crate::message::arg_texts;
use crate::number::{
    const_i128_to_str, const_u128_to_str, decimal_bytes, signed_decimal_bytes, UtilBufWrapper,
};
use crate::template::{push_placeholder, render, render_piece, template_text, Piece};
use vstd::utf8::{encode_utf8, is_ascii_chars, is_ascii_chars_encode_utf8};
use crate::text::{push_char, push_text};

verus! {

/// One segment of a [`RefMessage`]: borrowed text, a number written in
/// decimal, or a placeholder.
#[derive(Debug, Clone, Copy, PartialEq, Eq)]
pub enum RefMessageFormat<'a> {
    RefText(&'a str),
    UNumber(u128),
    INumber(i128),
    Placeholder(usize),
}

/// ASCII bytes read as characters.
pub open spec fn ascii_chars(bs: Seq<u8>) -> Seq<char> {
    bs.map_values(|b: u8| b as char)
}

impl<'a> View for RefMessageFormat<'a> {
    type V = Piece;

    open spec fn view(&self) -> Piece {
        match self {
            RefMessageFormat::RefText(s) => Piece::Lit(s@),
            RefMessageFormat::UNumber(n) => Piece::Lit(ascii_chars(decimal_bytes(*n as nat))),
            RefMessageFormat::INumber(n) => Piece::Lit(ascii_chars(signed_decimal_bytes(*n as int))),
            RefMessageFormat::Placeholder(k) => Piece::Arg(*k),
        }
    }
}

impl<'a> Segment for RefMessageFormat<'a> {
    open spec fn spec_arg(&self) -> Option<usize> {
        match self {
            RefMessageFormat::Placeholder(n) => Some(*n),
            _ => None,
        }
    }

    fn arg(&self) -> (r: Option<usize>) {
        match self {
            RefMessageFormat::Placeholder(n) => Some(*n),
            _ => None,
        }
    }
}

pub open spec fn pieces_of_refs<'a>(fs: Seq<RefMessageFormat<'a>>) -> Seq<Piece> {
    fs.map_values(|f: RefMessageFormat<'a>| f@)
}

/// The bytes a segment stands for, given the argument bytes.
pub open spec fn piece_bytes<'a>(f: RefMessageFormat<'a>, args: Seq<Seq<u8>>) -> Seq<u8> {
    match f {
        RefMessageFormat::RefText(s) => s.spec_bytes(),
        RefMessageFormat::UNumber(n) => decimal_bytes(n as nat),
        RefMessageFormat::INumber(n) => signed_decimal_bytes(n as int),
        RefMessageFormat::Placeholder(k) => if k < args.len() {
            args[k as int]
        } else {
            Seq::empty()
        },
    }
}

/// The concatenation of the bytes the segments stand for, in order.
pub open spec fn render_bytes<'a>(fs: Seq<RefMessageFormat<'a>>, args: Seq<Seq<u8>>) -> Seq<u8>
    decreases fs.len(),
{
    if fs.len() == 0 {
        Seq::empty()
    } else {
        render_bytes(fs.drop_last(), args) + piece_bytes(fs.last(), args)
    }
}

/// The arguments as byte strings.
pub open spec fn arg_bytes(args: Seq<&[u8]>) -> Seq<Seq<u8>> {
    args.map_values(|a: &[u8]| a@)
}

proof fn lemma_render_bytes_prefix<'a>(fs: Seq<RefMessageFormat<'a>>, args: Seq<Seq<u8>>, k: int)
    requires
        0 <= k <= fs.len(),
    ensures
        render_bytes(fs.take(k), args).len() <= render_bytes(fs, args).len(),
    decreases fs.len() - k,
{
    if k < fs.len() {
        lemma_render_bytes_prefix(fs, args, k + 1);
        assert(fs.take(k + 1).drop_last() == fs.take(k));
    } else {
        assert(fs.take(k) == fs);
    }
}

/// Appends `bytes` to the first `total` bytes of `buf`.
fn copy_into<const SIZE: usize>(buf: &mut [u8; SIZE], total: usize, bytes: &[u8]) -> (r: usize)
    requires
        total + bytes@.len() <= SIZE,
    ensures
        r == total + bytes@.len(),
        final(buf)@.take(r as int) == old(buf)@.take(total as int) + bytes@,
        forall|i: int| r <= i < SIZE ==> final(buf)@[i] == old(buf)@[i],
{
    let mut t: usize = total;
    let mut j: usize = 0;
    while j < bytes.len()
        invariant
            total + bytes@.len() <= SIZE,
            j <= bytes@.len(),
            t == total + j,
            buf@.len() == SIZE,
            buf@.take(t as int) == old(buf)@.take(total as int) + bytes@.take(j as int),
            forall|i: int| t <= i < SIZE ==> buf@[i] == old(buf)@[i],
        decreases bytes@.len() - j,
    {
        let ghost before = buf@;
        buf[t] = bytes[j];
        assert(buf@.take(t + 1) =~= before.take(t as int).push(bytes@[j as int]));
        assert(bytes@.take(j + 1) =~= bytes@.take(j as int).push(bytes@[j as int]));
        t = t + 1;
        j = j + 1;
    }
    assert(bytes@.take(bytes@.len() as int) == bytes@);
    t
}

proof fn lemma_encode_concat(a: Seq<char>, b: Seq<char>)
    ensures
        encode_utf8(a + b) == encode_utf8(a) + encode_utf8(b),
    decreases a.len(),
{
    if a.len() == 0 {
        assert(a + b == b);
        assert(encode_utf8(a) + encode_utf8(b) =~= encode_utf8(b));
    } else {
        assert((a + b).drop_first() == a.drop_first() + b);
        assert((a + b)[0] == a[0]);
        lemma_encode_concat(a.drop_first(), b);
        assert(encode_utf8(a + b) =~= encode_utf8(a) + encode_utf8(b));
    }
}

proof fn lemma_decimal_digits(n: nat)
    ensures
        forall|i: int| 0 <= i < decimal_bytes(n).len() ==> 48 <= #[trigger] decimal_bytes(n)[i] <= 57,
    decreases n,
{
    if n >= 10 {
        lemma_decimal_digits(n / 10);
        let d = decimal_bytes(n / 10);
        assert forall|i: int| 0 <= i < decimal_bytes(n).len() implies 48 <= #[trigger] decimal_bytes(n)[i] <= 57 by {
            if i < d.len() {
                assert(decimal_bytes(n)[i] == d[i]);
            }
        }
    }
}

proof fn lemma_ascii_round_trip(bs: Seq<u8>)
    requires
        forall|i: int| 0 <= i < bs.len() ==> #[trigger] bs[i] < 128,
    ensures
        encode_utf8(ascii_chars(bs)) == bs,
{
    let cs = ascii_chars(bs);
    assert(is_ascii_chars(cs));
    is_ascii_chars_encode_utf8(cs);
    assert forall|i: int| 0 <= i < bs.len() implies encode_utf8(cs)[i] == bs[i] by {
        assert(cs[i] as u8 == encode_utf8(cs)[i]);
    }
    assert(encode_utf8(cs) =~= bs);
}

proof fn lemma_number_bytes(f: RefMessageFormat, args: Seq<Seq<u8>>)
    requires
        f is UNumber || f is INumber,
    ensures
        f@ matches Piece::Lit(t) && encode_utf8(t) == piece_bytes(f, args),
{
    match f {
        RefMessageFormat::UNumber(n) => {
            lemma_decimal_digits(n as nat);
            lemma_ascii_round_trip(decimal_bytes(n as nat));
        },
        RefMessageFormat::INumber(n) => {
            let m: nat = if n < 0 { (-n) as nat } else { n as nat };
            lemma_decimal_digits(m);
            let bs = signed_decimal_bytes(n as int);
            assert forall|i: int| 0 <= i < bs.len() implies #[trigger] bs[i] < 128 by {
                if n < 0 && i > 0 {
                    assert(bs[i] == decimal_bytes(m)[i - 1]);
                }
            }
            lemma_ascii_round_trip(bs);
        },
        _ => {},
    }
}

/// Formatting into a buffer gives the UTF-8 bytes of the text that
/// [`RefMessage::format`] gives, when each argument's bytes are the UTF-8
/// bytes of its text.
pub proof fn lemma_bytes_encode_text<'a>(fs: Seq<RefMessageFormat<'a>>, args: Seq<&str>)
    ensures
        render_bytes(fs, args.map_values(|a: &str| a.spec_bytes())) == encode_utf8(
            render(pieces_of_refs(fs), arg_texts(args)),
        ),
    decreases fs.len(),
{
    let bargs = args.map_values(|a: &str| a.spec_bytes());
    let texts = arg_texts(args);
    if fs.len() == 0 {
        assert(pieces_of_refs(fs).len() == 0);
    } else {
        let init = fs.drop_last();
        let f = fs.last();
        lemma_bytes_encode_text(init, args);
        assert(pieces_of_refs(fs) == pieces_of_refs(init) + seq![f@]);
        crate::template::lemma_render_concat(pieces_of_refs(init), seq![f@], texts);
        let one = seq![f@];
        assert(one.drop_first() == Seq::<Piece>::empty());
        assert(render(one, texts) == render_piece(f@, texts) + render(one.drop_first(), texts));
        assert(render_piece(f@, texts) + Seq::<char>::empty() == render_piece(f@, texts));
        lemma_encode_concat(render(pieces_of_refs(init), texts), render_piece(f@, texts));
        match f {
            RefMessageFormat::RefText(t) => {},
            RefMessageFormat::Placeholder(k) => {
                if k < args.len() {
                    assert(bargs[k as int] == args[k as int].spec_bytes());
                    assert(texts[k as int] == args[k as int]@);
                } else {
                    assert(encode_utf8(Seq::<char>::empty()) == Seq::<u8>::empty());
                }
            },
            _ => {
                lemma_number_bytes(f, bargs);
            },
        }
    }
}

/// Appends `n` written in decimal.
pub fn push_decimal(s: &mut String, n: u128)
    ensures
        final(s)@ == old(s)@ + ascii_chars(decimal_bytes(n as nat)),
{
    let digits = const_u128_to_str(n);
    push_ascii(s, &digits);
}

/// Appends the first `total` bytes of `buf`, read as ASCII characters.
fn push_ascii<const M: usize>(s: &mut String, buf: &UtilBufWrapper<M>)
    requires
        buf.total <= M,
    ensures
        final(s)@ == old(s)@ + ascii_chars(buf.buffer@.take(buf.total as int)),
{
    let bytes = buf.buffer();
    let mut k: usize = 0;
    while k < bytes.len()
        invariant
            bytes@ == buf.buffer@.take(buf.total as int),
            k <= bytes@.len(),
            s@ == old(s)@ + ascii_chars(bytes@.take(k as int)),
        decreases bytes@.len() - k,
    {
        push_char(s, bytes[k] as char);
        assert(ascii_chars(bytes@.take(k + 1)) =~= ascii_chars(bytes@.take(k as int)).push(
            bytes@[k as int] as char,
        ));
        k = k + 1;
    }
    assert(bytes@.take(bytes@.len() as int) == bytes@);
}

/// A message of `N` arguments over borrowed segments, whose placeholder
/// indices are exactly `0..N`.
#[derive(Debug, Clone, PartialEq, Eq)]
pub struct RefMessage<'a, const N: usize> {
    formats: &'a [RefMessageFormat<'a>],
}

impl<'a, const N: usize> RefMessage<'a, N> {
    pub closed spec fn spec_formats(&self) -> Seq<RefMessageFormat<'a>> {
        self.formats@
    }

    /// The message is well formed: its placeholder indices are exactly `0..N`.
    pub open spec fn wf(&self) -> bool {
        args_exact(arg_ids(self.spec_formats()), N)
    }

    /// Builds a message, checking that its placeholder indices are exactly
    /// `0..N`: the first index at or above `N` is reported, else the lowest
    /// unused one.
    pub fn new(formats: &'a [RefMessageFormat<'a>]) -> (r: Result<Self, CreateMessageError>)
        ensures
            r is Ok <==> arg_error(arg_ids(formats@), N) is None,
            r matches Ok(m) ==> m.spec_formats() == formats@ && m.wf(),
            r matches Err(e) ==> arg_error(arg_ids(formats@), N) == Some(e),
    {
        proof {
            crate::args::lemma_arg_error_none(arg_ids(formats@), N);
        }
        match check_args(formats, N) {
            Ok(()) => Ok(RefMessage { formats }),
            Err(e) => Err(e),
        }
    }

    /// Builds a message whose placeholder indices must be exactly `0..N`.
    pub fn new_panic(formats: &'a [RefMessageFormat<'a>]) -> (r: Self)
        requires
            args_exact(arg_ids(formats@), N),
        ensures
            r.spec_formats() == formats@,
            r.wf(),
    {
        RefMessage { formats }
    }

    /// The message with each placeholder replaced by its argument and each
    /// number written in decimal.
    pub fn format(&self, args: &[&str; N]) -> (r: String)
        requires
            self.wf(),
        ensures
            r@ == render(pieces_of_refs(self.spec_formats()), arg_texts(args@)),
    {
        let fs = self.formats;
        let ghost texts = arg_texts(args@);
        let ghost ps = pieces_of_refs(fs@);
        let mut text = String::new();
        let mut k: usize = 0;
        assert(ps.skip(0) == ps);
        assert(text@ + render(ps, texts) == render(ps, texts));
        while k < fs.len()
            invariant
                fs@ == self.spec_formats(),
                ps == pieces_of_refs(fs@),
                args_in_range(arg_ids(fs@), N),
                k <= fs@.len(),
                texts == arg_texts(args@),
                args@.len() == N,
                text@ + render(ps.skip(k as int), texts) == render(ps, texts),
            decreases fs@.len() - k,
        {
            let ghost rest = ps.skip(k as int);
            assert(rest.drop_first() == ps.skip(k + 1));
            assert(rest[0] == fs@[k as int]@);
            let ghost before = text@;
            match &fs[k] {
                RefMessageFormat::RefText(s) => push_text(&mut text, s),
                RefMessageFormat::UNumber(n) => {
                    let digits = const_u128_to_str(*n);
                    push_ascii(&mut text, &digits);
                },
                RefMessageFormat::INumber(n) => {
                    let digits = const_i128_to_str(*n);
                    push_ascii(&mut text, &digits);
                },
                RefMessageFormat::Placeholder(n) => {
                    assert(arg_ids(fs@)[k as int] == Some(*n));
                    push_text(&mut text, args[*n]);
                },
            }
            assert(text@ + render(rest.drop_first(), texts) == before + render(rest, texts));
            k = k + 1;
        }
        assert(ps.skip(fs@.len() as int).len() == 0);
        assert(text@ + Seq::<char>::empty() == text@);
        text
    }

    /// The message with each placeholder replaced by its argument bytes and
    /// each number written in decimal, into a buffer of `SIZE` bytes that must
    /// be large enough.
    pub fn const_format<const SIZE: usize>(&self, args: &[&[u8]; N]) -> (r: UtilBufWrapper<SIZE>)
        requires
            render_bytes(self.spec_formats(), arg_bytes(args@)).len() <= SIZE,
        ensures
            r.total <= SIZE,
            r.buffer@.take(r.total as int) == render_bytes(self.spec_formats(), arg_bytes(args@)),
            forall|i: int| r.total <= i < SIZE ==> r.buffer@[i] == 0,
    {
        let fs = self.formats;
        let ghost bargs = arg_bytes(args@);
        let mut buf = [0u8; SIZE];
        let mut total: usize = 0;
        let mut k: usize = 0;
        assert(fs@.take(0) =~= Seq::<RefMessageFormat<'a>>::empty());
        assert(buf@.take(0) =~= Seq::<u8>::empty());
        while k < fs.len()
            invariant
                fs@ == self.spec_formats(),
                bargs == arg_bytes(args@),
                args@.len() == N,
                k <= fs@.len(),
                buf@.len() == SIZE,
                render_bytes(fs@, bargs).len() <= SIZE,
                total == render_bytes(fs@.take(k as int), bargs).len(),
                buf@.take(total as int) == render_bytes(fs@.take(k as int), bargs),
                forall|i: int| total <= i < SIZE ==> buf@[i] == 0,
            decreases fs@.len() - k,
        {
            proof {
                lemma_render_bytes_prefix(fs@, bargs, k + 1);
                assert(fs@.take(k + 1).drop_last() == fs@.take(k as int));
                assert(fs@.take(k + 1).last() == fs@[k as int]);
            }
            match &fs[k] {
                RefMessageFormat::RefText(text) => {
                    total = copy_into(&mut buf, total, text.as_bytes());
                },
                RefMessageFormat::UNumber(n) => {
                    let digits = const_u128_to_str(*n);
                    total = copy_into(&mut buf, total, digits.buffer());
                },
                RefMessageFormat::INumber(n) => {
                    let digits = const_i128_to_str(*n);
                    total = copy_into(&mut buf, total, digits.buffer());
                },
                RefMessageFormat::Placeholder(n) => {
                    if *n < N {
                        total = copy_into(&mut buf, total, args[*n]);
                    }
                },
            }
            k = k + 1;
        }
        assert(fs@.take(fs@.len() as int) == fs@);
        UtilBufWrapper::new(buf, total)
    }

    /// The message written as a template: text as it is, each placeholder as
    /// `{index}`.
    pub fn to_template(&self) -> (r: String)
        ensures
            r@ == template_text(pieces_of_refs(self.spec_formats())),
    {
        let fs = self.formats;
        let ghost ps = pieces_of_refs(fs@);
        let mut text = String::new();
        let mut k: usize = 0;
        assert(ps.take(0) =~= Seq::<Piece>::empty());
        while k < fs.len()
            invariant
                fs@ == self.spec_formats(),
                ps == pieces_of_refs(fs@),
                k <= fs@.len(),
                text@ == template_text(ps.take(k as int)),
            decreases fs@.len() - k,
        {
            assert(ps.take(k + 1).drop_last() == ps.take(k as int));
            assert(ps.take(k + 1).last() == fs@[k as int]@);
            match &fs[k] {
                RefMessageFormat::RefText(s) => push_text(&mut text, s),
                RefMessageFormat::UNumber(n) => push_decimal(&mut text, *n),
                RefMessageFormat::INumber(n) => {
                    let digits = const_i128_to_str(*n);
                    push_ascii(&mut text, &digits);
                },
                RefMessageFormat::Placeholder(n) => push_placeholder(&mut text, *n),
            }
            k = k + 1;
        }
        assert(ps.take(fs@.len() as int) == ps);
        text
    }

    /// The number of segments.
    pub fn len(&self) -> (r: usize)
        ensures
            r == self.spec_formats().len(),
    {
        self.formats.len()
    }

    /// Whether the message has no segment.
    pub fn is_empty(&self) -> (r: bool)
        ensures
            r == (self.spec_formats().len() == 0),
    {
        self.formats.len() == 0
    }

    /// The segments of the message.
    pub fn formats(&self) -> (r: &'a [RefMessageFormat<'a>])
        ensures
            r@ == self.spec_formats(),
    {
        self.formats
    }
}

} // verus!
