use vstd::prelude::*;

use crate::number::decimal_bytes;
use crate::refer::{ascii_chars, push_decimal};
use crate::text::push_text;

verus! {

/// Errors found while building a message from its segments or its template.
#[derive(Debug, Clone, PartialEq, Eq, Structural)]
pub enum CreateMessageError {
    /// A placeholder names an argument at or above the declared count `n`.
    InvalidNumber { number: usize, n: usize },
    /// The argument `number` below the declared count `n` is never used.
    WithoutNumber { number: usize, n: usize },
    /// A placeholder was opened and never closed, or holds no number.
    EmptyPlaceholder,
}

/// `n` written in decimal.
pub open spec fn decimal(n: nat) -> Seq<char> {
    ascii_chars(decimal_bytes(n))
}

/// The text that describes an error.
pub open spec fn error_text(e: CreateMessageError) -> Seq<char> {
    match e {
        CreateMessageError::InvalidNumber { number, n } => "Invalid argument number: "@ + decimal(
            number as nat,
        ) + " is out of the allowed range (0 <= number < "@ + decimal(n as nat) + ")."@,
        CreateMessageError::WithoutNumber { number, n } => "Missing argument number: "@ + decimal(
            number as nat,
        ) + " is not found within the allowed range (0 <= number < "@ + decimal(n as nat) + ")."@,
        CreateMessageError::EmptyPlaceholder =>
            "Empty placeholder found: a placeholder was opened but not closed properly. Ensure all placeholders are correctly formatted."@,
    }
}

impl CreateMessageError {
    /// The text that describes the error.
    pub fn message(&self) -> (r: String)
        ensures
            r@ == error_text(*self),
    {
        let mut r = String::new();
        match self {
            CreateMessageError::InvalidNumber { number, n } => {
                push_text(&mut r, "Invalid argument number: ");
                push_decimal(&mut r, *number as u128);
                push_text(&mut r, " is out of the allowed range (0 <= number < ");
                push_decimal(&mut r, *n as u128);
                push_text(&mut r, ").");
            },
            CreateMessageError::WithoutNumber { number, n } => {
                push_text(&mut r, "Missing argument number: ");
                push_decimal(&mut r, *number as u128);
                push_text(&mut r, " is not found within the allowed range (0 <= number < ");
                push_decimal(&mut r, *n as u128);
                push_text(&mut r, ").");
            },
            CreateMessageError::EmptyPlaceholder => {
                push_text(
                    &mut r,
                    "Empty placeholder found: a placeholder was opened but not closed properly. Ensure all placeholders are correctly formatted.",
                );
            },
        }
        proof {
            assert(Seq::<char>::empty() + error_text(*self) == error_text(*self));
        }
        r
    }
}

/// A piece of a message that may stand for an argument.
pub trait Segment {
    spec fn spec_arg(&self) -> Option<usize>;

    /// The argument index this segment stands for, if it is a placeholder.
    fn arg(&self) -> (r: Option<usize>)
        ensures
            r == self.spec_arg(),
    ;
}

/// The first placeholder at or after position `i` whose index is `n` or more.
pub open spec fn first_out_of_range(ids: Seq<Option<usize>>, n: usize, i: int) -> Option<usize>
    decreases ids.len() - i,
{
    if i < 0 || i >= ids.len() {
        None
    } else {
        match ids[i] {
            Some(a) if a >= n => Some(a),
            _ => first_out_of_range(ids, n, i + 1),
        }
    }
}

/// Some index of `ids` stands for argument `k`.
pub open spec fn uses_arg(ids: Seq<Option<usize>>, k: usize) -> bool {
    exists|i: int| 0 <= i < ids.len() && #[trigger] ids[i] == Some(k)
}

/// The lowest argument index in `k..n` that no index of `ids` uses.
pub open spec fn lowest_unused(ids: Seq<Option<usize>>, n: usize, k: usize) -> Option<usize>
    decreases n - k,
{
    if k >= n {
        None
    } else if !uses_arg(ids, k) {
        Some(k)
    } else {
        lowest_unused(ids, n, (k + 1) as usize)
    }
}

/// Every placeholder index of `ids` is below `n`.
pub open spec fn args_in_range(ids: Seq<Option<usize>>, n: usize) -> bool {
    forall|i: int| 0 <= i < ids.len() ==> match #[trigger] ids[i] {
        Some(a) => a < n,
        None => true,
    }
}

/// The placeholder indices of `ids` are exactly `0..n`.
pub open spec fn args_exact(ids: Seq<Option<usize>>, n: usize) -> bool {
    &&& args_in_range(ids, n)
    &&& forall|k: usize| k < n ==> uses_arg(ids, k)
}

/// What validating `ids` against `n` arguments reports: the first out-of-range
/// placeholder in order, else the lowest unused index, else nothing.
pub open spec fn arg_error(ids: Seq<Option<usize>>, n: usize) -> Option<CreateMessageError> {
    match first_out_of_range(ids, n, 0) {
        Some(a) => Some(CreateMessageError::InvalidNumber { number: a, n }),
        None => match lowest_unused(ids, n, 0) {
            Some(k) => Some(CreateMessageError::WithoutNumber { number: k, n }),
            None => None,
        },
    }
}

proof fn lemma_no_out_of_range(ids: Seq<Option<usize>>, n: usize, i: int)
    requires
        0 <= i <= ids.len(),
        first_out_of_range(ids, n, i) is None,
    ensures
        forall|j: int| i <= j < ids.len() ==> match #[trigger] ids[j] {
            Some(a) => a < n,
            None => true,
        },
    decreases ids.len() - i,
{
    if i < ids.len() {
        lemma_no_out_of_range(ids, n, i + 1);
    }
}

proof fn lemma_none_unused(ids: Seq<Option<usize>>, n: usize, k: usize)
    requires
        lowest_unused(ids, n, k) is None,
    ensures
        forall|j: usize| k <= j < n ==> uses_arg(ids, j),
    decreases n - k,
{
    if k < n {
        lemma_none_unused(ids, n, (k + 1) as usize);
    }
}

/// A sequence validates exactly when its placeholder indices are `0..n`.
pub proof fn lemma_arg_error_none(ids: Seq<Option<usize>>, n: usize)
    ensures
        arg_error(ids, n) is None <==> args_exact(ids, n),
{
    if arg_error(ids, n) is None {
        lemma_no_out_of_range(ids, n, 0);
        lemma_none_unused(ids, n, 0);
    } else {
        if first_out_of_range(ids, n, 0) is Some {
            lemma_out_of_range_found(ids, n, 0);
        } else {
            lemma_unused_found(ids, n, 0);
        }
    }
}

proof fn lemma_out_of_range_found(ids: Seq<Option<usize>>, n: usize, i: int)
    requires
        0 <= i,
        first_out_of_range(ids, n, i) is Some,
    ensures
        exists|j: int| i <= j < ids.len() && match #[trigger] ids[j] {
            Some(a) => a >= n,
            None => false,
        },
    decreases ids.len() - i,
{
    if i < ids.len() {
        match ids[i] {
            Some(a) if a >= n => {},
            _ => lemma_out_of_range_found(ids, n, i + 1),
        }
    }
}

proof fn lemma_unused_found(ids: Seq<Option<usize>>, n: usize, k: usize)
    requires
        lowest_unused(ids, n, k) is Some,
    ensures
        exists|j: usize| k <= j < n && !uses_arg(ids, j),
    decreases n - k,
{
    if k < n && uses_arg(ids, k) {
        lemma_unused_found(ids, n, (k + 1) as usize);
    }
}

proof fn lemma_first_out_none_when_below(ids: Seq<Option<usize>>, n: usize, i: int)
    requires
        0 <= i,
        forall|j: int| i <= j < ids.len() ==> match #[trigger] ids[j] {
            Some(a) => a < n,
            None => true,
        },
    ensures
        first_out_of_range(ids, n, i) is None,
    decreases ids.len() - i,
{
    if i < ids.len() {
        lemma_first_out_none_when_below(ids, n, i + 1);
    }
}

/// A sequence whose placeholders use exactly the indices `0` and `2` is
/// rejected, for every count of three or more, as missing the index `1`.
pub proof fn lemma_gap_is_reported(ids: Seq<Option<usize>>, n: usize)
    requires
        n >= 3,
        forall|i: int|
            0 <= i < ids.len() ==> #[trigger] ids[i] is None || ids[i] == Some(0usize) || ids[i]
                == Some(2usize),
        uses_arg(ids, 0),
        uses_arg(ids, 2),
    ensures
        arg_error(ids, n) == Some(CreateMessageError::WithoutNumber { number: 1, n }),
{
    lemma_first_out_none_when_below(ids, n, 0);
    assert(!uses_arg(ids, 1));
    assert(lowest_unused(ids, n, 1) == Some(1usize));
    assert(lowest_unused(ids, n, 0) == lowest_unused(ids, n, 1));
}

proof fn lemma_first_out_is_n(ids: Seq<Option<usize>>, n: usize, i: int)
    requires
        0 <= i,
        forall|j: int| 0 <= j < ids.len() ==> match #[trigger] ids[j] {
            Some(a) => a <= n,
            None => true,
        },
        exists|j: int| i <= j < ids.len() && #[trigger] ids[j] == Some(n),
    ensures
        first_out_of_range(ids, n, i) == Some(n),
    decreases ids.len() - i,
{
    if ids[i] != Some(n) {
        assert(exists|j: int| i + 1 <= j < ids.len() && #[trigger] ids[j] == Some(n));
        lemma_first_out_is_n(ids, n, i + 1);
    }
}

/// A sequence that uses the index `n`, and none above it, is rejected against
/// `n` arguments as naming the argument `n`.
pub proof fn lemma_range_is_reported(ids: Seq<Option<usize>>, n: usize)
    requires
        forall|i: int| 0 <= i < ids.len() ==> match #[trigger] ids[i] {
            Some(a) => a <= n,
            None => true,
        },
        uses_arg(ids, n),
    ensures
        arg_error(ids, n) == Some(CreateMessageError::InvalidNumber { number: n, n }),
{
    lemma_first_out_is_n(ids, n, 0);
}

/// Any sequence that uses an index at or above `n` is rejected against `n`
/// arguments, naming such an index.
pub proof fn lemma_out_of_range_rejected(ids: Seq<Option<usize>>, n: usize, i: int)
    requires
        0 <= i < ids.len(),
        ids[i] matches Some(a) && a >= n,
    ensures
        arg_error(ids, n) matches Some(CreateMessageError::InvalidNumber { number, n: m }) && number
            >= n && m == n,
{
    lemma_out_of_range_value(ids, n, 0, i);
}

proof fn lemma_out_of_range_value(ids: Seq<Option<usize>>, n: usize, k: int, i: int)
    requires
        0 <= k <= i < ids.len(),
        ids[i] matches Some(a) && a >= n,
    ensures
        first_out_of_range(ids, n, k) matches Some(b) && b >= n,
    decreases i - k,
{
    if k < i {
        match ids[k] {
            Some(a) if a >= n => {},
            _ => lemma_out_of_range_value(ids, n, k + 1, i),
        }
    }
}

/// The argument indices the segments stand for, in order.
pub open spec fn arg_ids<T: Segment>(fs: Seq<T>) -> Seq<Option<usize>> {
    fs.map_values(|f: T| f.spec_arg())
}

/// Checks that the placeholder indices of `fs` are exactly `0..n`: the first
/// placeholder at or above `n` is reported, else the lowest index never used.
pub fn check_args<T: Segment>(fs: &[T], n: usize) -> (r: Result<(), CreateMessageError>)
    ensures
        r matches Ok(_) <==> arg_error(arg_ids(fs@), n) is None,
        r matches Err(e) ==> arg_error(arg_ids(fs@), n) == Some(e),
{
    let mut used: Vec<bool> = Vec::new();
    let mut k: usize = 0;
    while k < n
        invariant
            k <= n,
            used@.len() == k,
            forall|j: int| 0 <= j < k ==> !used@[j],
        decreases n - k,
    {
        used.push(false);
        k = k + 1;
    }
    let mut i: usize = 0;
    while i < fs.len()
        invariant
            i <= fs@.len(),
            used@.len() == n,
            first_out_of_range(arg_ids(fs@), n, 0) == first_out_of_range(arg_ids(fs@), n, i as int),
            forall|j: usize| j < n ==> (used@[j as int] <==> exists|m: int|
                0 <= m < i && #[trigger] arg_ids(fs@)[m] == Some(j)),
        decreases fs@.len() - i,
    {
        let ghost ids = arg_ids(fs@);
        assert(ids[i as int] == fs@[i as int].spec_arg());
        match fs[i].arg() {
            Some(a) => {
                if a >= n {
                    return Err(CreateMessageError::InvalidNumber { number: a, n });
                }
                used.set(a, true);
                assert forall|j: usize| j < n implies (used@[j as int] <==> exists|m: int|
                    0 <= m < i + 1 && #[trigger] arg_ids(fs@)[m] == Some(j)) by {
                    if j == a {
                        assert(arg_ids(fs@)[i as int] == Some(j));
                    } else if used@[j as int] {
                    } else {
                        assert forall|m: int| 0 <= m < i + 1 implies #[trigger] arg_ids(fs@)[m] != Some(j) by {
                            if m < i {
                            }
                        }
                    }
                }
            },
            None => {
                assert forall|j: usize| j < n implies (used@[j as int] <==> exists|m: int|
                    0 <= m < i + 1 && #[trigger] arg_ids(fs@)[m] == Some(j)) by {
                    if !used@[j as int] {
                        assert forall|m: int| 0 <= m < i + 1 implies #[trigger] arg_ids(fs@)[m] != Some(j) by {
                            if m < i {
                            }
                        }
                    }
                }
            },
        }
        i = i + 1;
    }
    assert(forall|j: usize| j < n ==> (used@[j as int] <==> uses_arg(arg_ids(fs@), j)));
    let mut k: usize = 0;
    while k < n
        invariant
            k <= n,
            used@.len() == n,
            first_out_of_range(arg_ids(fs@), n, 0) is None,
            lowest_unused(arg_ids(fs@), n, 0) == lowest_unused(arg_ids(fs@), n, k),
            forall|j: usize| j < n ==> (used@[j as int] <==> uses_arg(arg_ids(fs@), j)),
        decreases n - k,
    {
        if !used[k] {
            return Err(CreateMessageError::WithoutNumber { number: k, n });
        }
        k = k + 1;
    }
    Ok(())
}

} // verus!
