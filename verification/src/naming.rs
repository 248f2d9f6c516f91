//! The names of the directories of a process and of its threads.
use vstd::prelude::*;
use vstd::string::*;
use vstd::utf8::encode_utf8;

verus! {

/// The byte of the digit zero.
pub const DIGIT_ZERO: u8 = 48;

/// The decimal digits of `n`, as text.
pub open spec fn decimal(n: int) -> Seq<u8>
    decreases n,
{
    if n < 10 {
        seq![(DIGIT_ZERO + n) as u8]
    } else {
        decimal(n / 10).push((DIGIT_ZERO + n % 10) as u8)
    }
}

/// What the name of the directory of the process `pid` starts with.
pub open spec fn process_dir_prefix_bytes(pid: int) -> Seq<u8> {
    encode_utf8("pid-"@) + decimal(pid) + encode_utf8("-"@)
}

/// The name of the directory of the thread with the given id.
pub open spec fn thread_dir_name_bytes(id: int) -> Seq<u8> {
    encode_utf8("thread-"@) + decimal(id)
}

/// Appends the decimal digits of `n`.
fn push_decimal(out: &mut Vec<u8>, n: u64)
    ensures
        final(out)@ == old(out)@ + decimal(n as int),
    decreases n,
{
    if n >= 10 {
        push_decimal(out, n / 10);
    }
    out.push(DIGIT_ZERO + (n % 10) as u8);
    assert(out@ =~= old(out)@ + decimal(n as int));
}

/// What the name of the directory of the process `pid` starts with: `pid-`, the
/// number and `-`.
pub fn process_dir_prefix(pid: u32) -> (r: Vec<u8>)
    ensures
        r@ == process_dir_prefix_bytes(pid as int),
{
    let mut out = "pid-".as_bytes_vec();
    push_decimal(&mut out, pid as u64);
    out.extend_from_slice("-".as_bytes());
    assert(out@ =~= process_dir_prefix_bytes(pid as int));
    out
}

/// The name of the directory of the thread with the given id: `thread-` and the
/// number.
pub fn thread_dir_name(id: u64) -> (r: Vec<u8>)
    ensures
        r@ == thread_dir_name_bytes(id as int),
{
    let mut out = "thread-".as_bytes_vec();
    push_decimal(&mut out, id);
    out
}

/// The digits of a number are digits.
pub proof fn decimal_has_only_digits(n: int)
    requires
        n >= 0,
    ensures
        decimal(n).len() > 0,
        forall|i: int|
            0 <= i < decimal(n).len() ==> DIGIT_ZERO <= #[trigger] decimal(n)[i] < DIGIT_ZERO + 10,
    decreases n,
{
    if n >= 10 {
        decimal_has_only_digits(n / 10);
    }
}

/// Different numbers have different digits.
pub proof fn decimal_is_injective(a: int, b: int)
    requires
        a >= 0,
        b >= 0,
        decimal(a) == decimal(b),
    ensures
        a == b,
    decreases a,
{
    decimal_has_only_digits(a / 10);
    decimal_has_only_digits(b / 10);
    assert(decimal(a).last() == (DIGIT_ZERO + a % 10) as u8) by {
        if a < 10 {
            assert(decimal(a) =~= seq![(DIGIT_ZERO + a) as u8]);
        }
    }
    assert(decimal(b).last() == (DIGIT_ZERO + b % 10) as u8) by {
        if b < 10 {
            assert(decimal(b) =~= seq![(DIGIT_ZERO + b) as u8]);
        }
    }
    assert(a % 10 == b % 10);
    if a >= 10 && b >= 10 {
        assert(decimal(a).drop_last() =~= decimal(a / 10));
        assert(decimal(b).drop_last() =~= decimal(b / 10));
        decimal_is_injective(a / 10, b / 10);
    } else {
        assert(decimal(a).len() == decimal(b).len());
    }
}

/// The digits of a number, read from the left as a decimal number, give the
/// number, and the first is no zero but for the number zero.
pub proof fn decimal_spells_the_number(n: int)
    requires
        n >= 0,
    ensures
        decimal(n).fold_left(0int, |read: int, digit: u8| read * 10 + (digit - 48)) == n,
        decimal(n).len() > 0,
        forall|i: int| 0 <= i < decimal(n).len() ==> 48u8 <= #[trigger] decimal(n)[i] <= 57u8,
        decimal(n).len() > 1 ==> decimal(n)[0] != 48u8,
    decreases n,
{
    let read = |read: int, digit: u8| read * 10 + (digit - 48);
    let d = decimal(n);
    decimal_has_only_digits(n);
    if n < 10 {
        assert(d.drop_last() =~= seq![]);
        assert(d.drop_last().fold_left(0int, read) == 0);
        assert(d.last() - 48 == n);
    } else {
        decimal_spells_the_number(n / 10);
        assert(d.drop_last() =~= decimal(n / 10));
        assert(d[0] == decimal(n / 10)[0]);
        assert(d.last() - 48 == n % 10);
        if n / 10 < 10 {
            assert(decimal(n / 10) =~= seq![(DIGIT_ZERO + n / 10) as u8]);
        } else {
            decimal_has_only_digits(n / 10 / 10);
            assert(decimal(n / 10).len() > 1);
        }
    }
}

/// The directory of a process has a name that starts with `pid-`, the number of
/// the process and `-`; that of a thread is named `thread-` and its number.
pub proof fn names_hold_the_number(n: int)
    ensures
        process_dir_prefix_bytes(n) == encode_utf8("pid-"@) + decimal(n) + encode_utf8("-"@),
        thread_dir_name_bytes(n) == encode_utf8("thread-"@) + decimal(n),
{
}

}
