//! Laws of numbers as text and of the order of names.

use vstd::prelude::*;

use crate::text::{bytes_before, decimal, decimal_chars};

verus! {

/// The number that digits stand for, the most significant first.
pub open spec fn number_of(digits: Seq<char>) -> nat
    decreases digits.len(),
{
    if digits.len() == 0 {
        0
    } else {
        10 * number_of(digits.drop_last()) + (digits.last() as u32 - 48) as nat
    }
}

/// The number that digits stand for as bytes, the most significant first.
pub open spec fn number_of_bytes(digits: Seq<u8>) -> nat
    decreases digits.len(),
{
    if digits.len() == 0 {
        0
    } else {
        10 * number_of_bytes(digits.drop_last()) + (digits.last() - 48) as nat
    }
}

/// A number in decimal is made of digits, does not start with a zero unless it is zero, and
/// stands for the number.
pub proof fn decimal_text_stands_for_its_number(n: nat)
    ensures
        number_of(decimal_chars(n)) == n,
        decimal_chars(n).len() > 0,
        forall|i: int|
            0 <= i < decimal_chars(n).len() ==> '0' <= #[trigger] decimal_chars(n)[i] <= '9',
        n > 0 ==> decimal_chars(n)[0] != '0',
    decreases n,
{
    let text = decimal_chars(n);
    if n < 10 {
        assert(text.drop_last() =~= Seq::<char>::empty());
        assert(number_of(Seq::<char>::empty()) == 0);
        assert(text.last() as u32 == 48 + n);
    } else {
        decimal_text_stands_for_its_number(n / 10);
        let front = decimal_chars(n / 10);
        assert(text.drop_last() =~= front);
        assert(text.last() as u32 == 48 + n % 10);
        assert forall|i: int| 0 <= i < text.len() implies '0' <= #[trigger] text[i] <= '9' by {
            if i < front.len() {
                assert(text[i] == front[i]);
            }
        }
        assert(text[0] == front[0]);
    }
}

/// The bytes of a number in decimal stand for the number.
pub proof fn decimal_bytes_stand_for_their_number(n: nat)
    ensures
        number_of_bytes(decimal(n)) == n,
        decimal(n).len() > 0,
    decreases n,
{
    let text = decimal(n);
    if n < 10 {
        assert(text.drop_last() =~= Seq::<u8>::empty());
        assert(number_of_bytes(Seq::<u8>::empty()) == 0);
    } else {
        decimal_bytes_stand_for_their_number(n / 10);
        assert(text.drop_last() =~= decimal(n / 10));
    }
}

/// Names are ordered by the first byte in which they differ, and a name comes before those that
/// it is the start of.
pub proof fn names_are_ordered_by_their_first_difference(a: Seq<u8>, b: Seq<u8>, k: int)
    requires
        0 <= k <= a.len(),
        k <= b.len(),
        forall|i: int| 0 <= i < k ==> #[trigger] a[i] == b[i],
    ensures
        k < a.len() && k < b.len() && a[k] < b[k] ==> bytes_before(a, b) && !bytes_before(b, a),
        k == a.len() && k < b.len() ==> bytes_before(a, b) && !bytes_before(b, a),
        k == a.len() && k == b.len() ==> !bytes_before(a, b),
    decreases k,
{
    if k > 0 {
        assert(a[0] == b[0]);
        let (c, d) = (a.skip(1), b.skip(1));
        assert forall|i: int| 0 <= i < k - 1 implies #[trigger] c[i] == d[i] by {
            assert(a[i + 1] == b[i + 1]);
        }
        names_are_ordered_by_their_first_difference(c, d, k - 1);
        if k < a.len() && k < b.len() {
            assert(c[k - 1] == a[k] && d[k - 1] == b[k]);
        }
    }
}

} // verus!
