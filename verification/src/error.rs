//! Errors reported by the executor kernels, and the text they carry.
use vstd::prelude::*;
use vstd::string::*;

verus! {

/// Why a kernel refused its inputs.
#[derive(Debug, Clone, PartialEq, Eq)]
pub enum ExecError {
    /// A buffer or shape does not have the size an op needs: what was expected, and what
    /// was found.
    ShapeMismatch { expected: String, actual: String },
    /// An op cannot run on what it was given.
    UnsupportedOp(String),
    /// Two buffers that must have the same length do not.
    LengthMismatch { expected: usize, actual: usize },
    /// A graph constant is missing, or its deferred bytes lie outside the weights.
    ConstantNotFound(u32),
}

/// What an `ExecError` says, with its texts as character sequences.
pub enum ErrorView {
    ShapeMismatch { expected: Seq<char>, actual: Seq<char> },
    UnsupportedOp(Seq<char>),
    LengthMismatch { expected: usize, actual: usize },
    ConstantNotFound(u32),
}

impl View for ExecError {
    type V = ErrorView;

    open spec fn view(&self) -> ErrorView {
        match self {
            ExecError::ShapeMismatch { expected, actual } => ErrorView::ShapeMismatch {
                expected: expected@,
                actual: actual@,
            },
            ExecError::UnsupportedOp(what) => ErrorView::UnsupportedOp(what@),
            ExecError::LengthMismatch { expected, actual } => ErrorView::LengthMismatch {
                expected: *expected,
                actual: *actual,
            },
            ExecError::ConstantNotFound(id) => ErrorView::ConstantNotFound(*id),
        }
    }
}

/// A result with its error taken by its view.
pub open spec fn result_view<T>(r: Result<T, ExecError>) -> Result<T, ErrorView> {
    match r {
        Ok(v) => Ok(v),
        Err(e) => Err(e@),
    }
}

/// The decimal digit `d` (below ten).
pub open spec fn spec_digit(d: nat) -> char {
    if d == 0 {
        '0'
    } else if d == 1 {
        '1'
    } else if d == 2 {
        '2'
    } else if d == 3 {
        '3'
    } else if d == 4 {
        '4'
    } else if d == 5 {
        '5'
    } else if d == 6 {
        '6'
    } else if d == 7 {
        '7'
    } else if d == 8 {
        '8'
    } else {
        '9'
    }
}

/// `n` written in decimal, without leading zeros.
pub open spec fn spec_dec(n: nat) -> Seq<char>
    decreases n,
{
    if n < 10 {
        seq![spec_digit(n)]
    } else {
        spec_dec(n / 10) + seq![spec_digit(n % 10)]
    }
}

/// The values of `s` in decimal, separated by `", "`.
pub open spec fn spec_join_dec(s: Seq<usize>) -> Seq<char>
    decreases s.len(),
{
    if s.len() == 0 {
        Seq::empty()
    } else if s.len() == 1 {
        spec_dec(s[0] as nat)
    } else {
        spec_join_dec(s.drop_last()) + ", "@ + spec_dec(s.last() as nat)
    }
}

/// A list of sizes as `[a, b, c]`.
pub open spec fn spec_dims_text(s: Seq<usize>) -> Seq<char> {
    "["@ + spec_join_dec(s) + "]"@
}

fn digit_str(d: usize) -> (s: &'static str)
    requires
        d < 10,
    ensures
        s@ == seq![spec_digit(d as nat)],
{
    let s = if d == 0 {
        proof { reveal_strlit("0"); }
        "0"
    } else if d == 1 {
        proof { reveal_strlit("1"); }
        "1"
    } else if d == 2 {
        proof { reveal_strlit("2"); }
        "2"
    } else if d == 3 {
        proof { reveal_strlit("3"); }
        "3"
    } else if d == 4 {
        proof { reveal_strlit("4"); }
        "4"
    } else if d == 5 {
        proof { reveal_strlit("5"); }
        "5"
    } else if d == 6 {
        proof { reveal_strlit("6"); }
        "6"
    } else if d == 7 {
        proof { reveal_strlit("7"); }
        "7"
    } else if d == 8 {
        proof { reveal_strlit("8"); }
        "8"
    } else {
        proof { reveal_strlit("9"); }
        "9"
    };
    assert(s@ =~= seq![spec_digit(d as nat)]);
    s
}

/// Append `n` in decimal to `s`.
pub fn push_dec(s: &mut String, n: usize)
    ensures
        final(s)@ == old(s)@ + spec_dec(n as nat),
    decreases n,
{
    if n >= 10 {
        push_dec(s, n / 10);
    }
    s.append(digit_str(n % 10));
    assert(old(s)@ + spec_dec(n as nat) =~= if n >= 10 {
        old(s)@ + spec_dec((n / 10) as nat) + seq![spec_digit((n % 10) as nat)]
    } else {
        old(s)@ + seq![spec_digit((n % 10) as nat)]
    });
}

/// Append the sizes of `dims` as `[a, b, c]` to `s`.
pub fn push_dims(s: &mut String, dims: &[usize])
    ensures
        final(s)@ == old(s)@ + spec_dims_text(dims@),
{
    s.append("[");
    let mut i: usize = 0;
    while i < dims.len()
        invariant
            i <= dims@.len(),
            s@ == old(s)@ + "["@ + spec_join_dec(dims@.take(i as int)),
        decreases dims@.len() - i,
    {
        let ghost before = s@;
        if i > 0 {
            s.append(", ");
        }
        push_dec(s, dims[i]);
        proof {
            let t = dims@.take(i as int + 1);
            assert(t.drop_last() =~= dims@.take(i as int));
            assert(t.last() == dims@[i as int]);
            if i == 0 {
                assert(spec_join_dec(dims@.take(0)) =~= Seq::<char>::empty());
                assert(spec_join_dec(t) == spec_dec(dims@[0] as nat));
            }
        }
        i = i + 1;
    }
    assert(dims@.take(dims@.len() as int) =~= dims@);
    s.append("]");
}

/// The text `head` followed by `n` in decimal.
pub fn head_dec(head: &str, n: usize) -> (s: String)
    ensures
        s@ == head@ + spec_dec(n as nat),
{
    let mut s = String::from_str(head);
    push_dec(&mut s, n);
    s
}

/// `n` in decimal followed by the text `tail`.
pub fn dec_then(n: usize, tail: &str) -> (s: String)
    ensures
        s@ == spec_dec(n as nat) + tail@,
{
    let mut s = String::new();
    push_dec(&mut s, n);
    s.append(tail);
    assert(Seq::<char>::empty() + spec_dec(n as nat) =~= spec_dec(n as nat));
    s
}

/// The text `head` followed by `n` in decimal and then `tail`.
pub fn text_dec(head: &str, n: usize, tail: &str) -> (s: String)
    ensures
        s@ == head@ + spec_dec(n as nat) + tail@,
{
    let mut s = String::from_str(head);
    push_dec(&mut s, n);
    s.append(tail);
    s
}

} // verus!
