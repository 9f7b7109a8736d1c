use vstd::prelude::*;

verus! {

/// A byte buffer of which the first `total` bytes are in use.
pub struct UtilBufWrapper<const N: usize> {
    pub buffer: [u8; N],
    pub total: usize,
}

/// `10` to the power `k`.
pub open spec fn pow10(k: nat) -> nat
    decreases k,
{
    if k == 0 {
        1
    } else {
        10 * pow10((k - 1) as nat)
    }
}

/// The ASCII digit of `d`.
pub open spec fn digit_byte(d: nat) -> u8 {
    (48 + d) as u8
}

/// The decimal digits of `n`, as ASCII bytes, without leading zeros.
pub open spec fn decimal_bytes(n: nat) -> Seq<u8>
    decreases n,
{
    if n < 10 {
        seq![digit_byte(n)]
    } else {
        decimal_bytes(n / 10).push(digit_byte(n % 10))
    }
}

/// The decimal text of `n`, with a leading `-` when it is negative.
pub open spec fn signed_decimal_bytes(n: int) -> Seq<u8> {
    if n < 0 {
        seq![45u8] + decimal_bytes((-n) as nat)
    } else {
        decimal_bytes(n as nat)
    }
}

impl<const N: usize> UtilBufWrapper<N> {
    pub fn new(buffer: [u8; N], total: usize) -> (r: Self)
        ensures
            r.buffer == buffer,
            r.total == total,
    {
        UtilBufWrapper { buffer, total }
    }

    /// The bytes in use.
    pub fn buffer(&self) -> (r: &[u8])
        requires
            self.total <= N,
        ensures
            r@ == self.buffer@.take(self.total as int),
    {
        let all = vstd::array::array_as_slice(&self.buffer);
        vstd::slice::slice_subrange(all, 0, self.total)
    }
}

proof fn lemma_u128_digits()
    ensures
        u128::MAX < pow10(39),
{
    reveal_with_fuel(pow10, 40);
    assert(pow10(39) == 1000000000000000000000000000000000000000nat);
}

/// Writes `n` in decimal into a 39-byte buffer (enough for any `u128`).
pub fn const_u128_to_str(n: u128) -> (r: UtilBufWrapper<39>)
    ensures
        1 <= r.total <= 39,
        r.buffer@.take(r.total as int) == decimal_bytes(n as nat),
        forall|i: int| r.total <= i < 39 ==> r.buffer@[i] == 0,
{
    if n == 0 {
        let mut buf = [0u8; 39];
        buf[0] = 48u8;
        assert(buf@.take(1) =~= decimal_bytes(0));
        assert(forall|i: int| 1 <= i < 39 ==> buf@[i] == 0);
        return UtilBufWrapper::new(buf, 1);
    }
    let mut buffer = [0u8; 39];
    let mut pos: usize = 39;
    let mut q: u128 = n;
    proof {
        lemma_u128_digits();
    }
    while q > 0
        invariant
            pos <= 39,
            buffer@.len() == 39,
            (q as nat) < pow10(pos as nat),
            (if q > 0 {
                decimal_bytes(q as nat)
            } else {
                Seq::empty()
            }) + buffer@.subrange(pos as int, 39) == decimal_bytes(n as nat),
        decreases q,
    {
        proof {
            if pos == 0 {
                assert(pow10(0) == 1);
            }
        }
        let d: u8 = (q % 10) as u8;
        let ghost old_q = q;
        let ghost tail = buffer@.subrange(pos as int, 39);
        pos = pos - 1;
        buffer[pos] = 48u8 + d;
        q = q / 10;
        proof {
            assert(buffer@.subrange(pos as int, 39) =~= seq![digit_byte((old_q % 10) as nat)] + tail);
            assert((q as nat) < pow10(pos as nat)) by (nonlinear_arith)
                requires
                    (old_q as nat) < 10 * pow10(pos as nat),
                    q == old_q / 10,
            ;
            if old_q >= 10 {
                assert(decimal_bytes(old_q as nat) == decimal_bytes(q as nat).push(
                    digit_byte((old_q % 10) as nat),
                ));
                assert(decimal_bytes(q as nat).push(digit_byte((old_q % 10) as nat)) + tail
                    =~= decimal_bytes(q as nat) + (seq![digit_byte((old_q % 10) as nat)] + tail));
            } else {
                assert(q == 0);
                assert(decimal_bytes(old_q as nat) == seq![digit_byte((old_q % 10) as nat)]);
                assert(Seq::<u8>::empty() + (seq![digit_byte((old_q % 10) as nat)] + tail)
                    =~= seq![digit_byte((old_q % 10) as nat)] + tail);
            }
        }
    }
    assert(Seq::<u8>::empty() + buffer@.subrange(pos as int, 39) == buffer@.subrange(pos as int, 39));
    assert(pos < 39);
    let len: usize = 39 - pos;
    let mut result = [0u8; 39];
    let mut j: usize = 0;
    while j < len
        invariant
            len == 39 - pos,
            j <= len,
            buffer@.len() == 39,
            result@.len() == 39,
            buffer@.subrange(pos as int, 39) == decimal_bytes(n as nat),
            forall|m: int| 0 <= m < j ==> result@[m] == buffer@[pos + m],
            forall|m: int| j <= m < 39 ==> result@[m] == 0,
        decreases len - j,
    {
        let b = buffer[pos + j];
        result[j] = b;
        j = j + 1;
    }
    assert(result@.take(len as int) =~= buffer@.subrange(pos as int, 39));
    UtilBufWrapper::new(result, len)
}

/// Writes `n` in decimal into a 40-byte buffer, with a leading `-` when it
/// is negative.
pub fn const_i128_to_str(n: i128) -> (r: UtilBufWrapper<40>)
    ensures
        1 <= r.total <= 40,
        r.buffer@.take(r.total as int) == signed_decimal_bytes(n as int),
        forall|i: int| r.total <= i < 40 ==> r.buffer@[i] == 0,
{
    let magnitude: u128 = if n < 0 {
        if n == i128::MIN {
            (i128::MAX as u128) + 1
        } else {
            (-n) as u128
        }
    } else {
        n as u128
    };
    let digits = const_u128_to_str(magnitude);
    let total = digits.total;
    let mut buffer = [0u8; 40];
    let mut i: usize = 0;
    if n < 0 {
        buffer[0] = 45u8;
        i = 1;
    }
    let start = i;
    let mut j: usize = 0;
    while j < total
        invariant
            total <= 39,
            start <= 1,
            i == start + j,
            j <= total,
            buffer@.len() == 40,
            digits.buffer@.len() == 39,
            start == 1 ==> buffer@[0] == 45u8,
            forall|m: int| i <= m < 40 ==> buffer@[m] == 0,
            forall|m: int| 0 <= m < j ==> buffer@[start + m] == digits.buffer@[m],
        decreases total - j,
    {
        buffer[i] = digits.buffer[j];
        i = i + 1;
        j = j + 1;
    }
    let ghost want = signed_decimal_bytes(n as int);
    assert(buffer@.take(i as int) =~= want);
    UtilBufWrapper::new(buffer, i)
}

} // verus!
