//! Null-terminated strings in device memory.

use vstd::prelude::*;

use crate::libc::types::{c_int, size_t};

verus! {

/// The bytes at `s` up to a terminating zero that lies `len` bytes further on.
pub open spec fn terminated(mem: Seq<u8>, s: int, len: int) -> bool {
    &&& 0 <= s
    &&& 0 <= len
    &&& s + len < mem.len()
    &&& mem[s + len] == 0
    &&& forall|i: int| s <= i < s + len ==> mem[i] != 0
}

/// A string starts at `s`: its terminating zero lies in memory.
pub open spec fn is_string(mem: Seq<u8>, s: int) -> bool {
    exists|len: int| terminated(mem, s, len)
}

/// The characters of the string at `s`, with its terminating zero.
pub open spec fn chars_with_end(mem: Seq<u8>, s: int) -> Seq<u8> {
    let len = choose|len: int| terminated(mem, s, len);
    mem.subrange(s, s + len + 1)
}

/// How two byte sequences compare: the difference of the first two bytes that
/// differ, or zero if `n` bytes are equal or end together before one differs.
pub open spec fn difference(a: Seq<u8>, b: Seq<u8>, n: nat) -> int
    decreases n,
{
    if n == 0 {
        0
    } else if a[0] != b[0] {
        a[0] - b[0]
    } else if a[0] == 0 {
        0
    } else {
        difference(a.skip(1), b.skip(1), (n - 1) as nat)
    }
}

/// The length of the string at `s`.
pub fn strlen(mem: &Vec<u8>, s: size_t) -> (len: size_t)
    requires
        holds_string(mem@, s),
    ensures
        terminated(mem@, s as int, len as int),
{
    let ghost end = choose|end: int| terminated(mem@, s as int, end);
    let size: usize = mem.len();
    let mut len: size_t = 0;
    while mem[s + len] != 0
        invariant
            size == mem@.len(),
            terminated(mem@, s as int, end),
            len <= end,
            forall|i: int| s <= i < s + len ==> mem@[i] != 0,
        decreases end - len,
    {
        len += 1;
    }
    len
}

/// What comparing the strings at `s1` and `s2` gives: zero if they are equal,
/// otherwise the difference of the first bytes that differ, as unsigned numbers.
pub open spec fn compares_as(mem: Seq<u8>, s1: usize, s2: usize, r: c_int) -> bool {
    let a = chars_with_end(mem, s1 as int);
    let b = chars_with_end(mem, s2 as int);
    &&& r == 0 <==> a == b
    &&& r != 0 ==> exists|k: int|
        0 <= k < a.len() && k < b.len() && #[trigger] a[k] != b[k] && r == a[k] - b[k] && (forall|
            i: int,
        |
            0 <= i < k ==> a[i] == b[i])
}

/// A string starts at `s`.
pub open spec fn holds_string(mem: Seq<u8>, s: usize) -> bool {
    is_string(mem, s as int)
}

/// `n` bytes can be read at `s`, or a string starts there.
pub open spec fn readable(mem: Seq<u8>, s: usize, n: usize) -> bool {
    s <= mem.len() && (is_string(mem, s as int) || s + n <= mem.len())
}

/// What comparing at most `n` bytes at `s1` and `s2` gives.
pub open spec fn prefix_difference(mem: Seq<u8>, s1: usize, s2: usize, n: usize) -> int {
    difference(mem.skip(s1 as int), mem.skip(s2 as int), n as nat)
}

fn byte_difference(c1: u8, c2: u8) -> (r: c_int)
    ensures
        r == c1 - c2,
{
    c1 as c_int - c2 as c_int
}

/// Compares two strings.
pub fn strcmp(mem: &Vec<u8>, s1: size_t, s2: size_t) -> (r: c_int)
    requires
        holds_string(mem@, s1),
        holds_string(mem@, s2),
    ensures
        compares_as(mem@, s1, s2, r),
{
    compare_strings(mem, s1, s2)
}

fn compare_strings(mem: &Vec<u8>, s1: size_t, s2: size_t) -> (r: c_int)
    requires
        holds_string(mem@, s1),
        holds_string(mem@, s2),
    ensures
        compares_as(mem@, s1, s2, r),
{
    let ghost a = chars_with_end(mem@, s1 as int);
    let ghost b = chars_with_end(mem@, s2 as int);
    let ghost la = choose|len: int| terminated(mem@, s1 as int, len);
    let ghost lb = choose|len: int| terminated(mem@, s2 as int, len);
    let size: usize = mem.len();
    let mut i: usize = 0;
    loop
        invariant
            size == mem@.len(),
            terminated(mem@, s1 as int, la),
            terminated(mem@, s2 as int, lb),
            a == mem@.subrange(s1 as int, s1 + la + 1),
            b == mem@.subrange(s2 as int, s2 + lb + 1),
            i <= la,
            i <= lb,
            a == chars_with_end(mem@, s1 as int),
            b == chars_with_end(mem@, s2 as int),
            forall|k: int| 0 <= k < i ==> a[k] == b[k],
        decreases la - i,
    {
        let c1: u8 = mem[s1 + i];
        let c2: u8 = mem[s2 + i];
        assert(a[i as int] == c1 && b[i as int] == c2);
        if c1 != c2 {
            return byte_difference(c1, c2);
        }
        if c1 == 0 {
            assert(la == i && lb == i);
            assert(a =~= b);
            return 0;
        }
        i += 1;
    }
}

/// Compares at most `n` bytes of two strings.
pub fn strncmp(mem: &Vec<u8>, s1: size_t, s2: size_t, n: size_t) -> (r: c_int)
    requires
        readable(mem@, s1, n),
        readable(mem@, s2, n),
    ensures
        r == prefix_difference(mem@, s1, s2, n),
{
    compare_prefixes(mem, s1, s2, n)
}

fn compare_prefixes(mem: &Vec<u8>, s1: size_t, s2: size_t, n: size_t) -> (r: c_int)
    requires
        readable(mem@, s1, n),
        readable(mem@, s2, n),
    ensures
        r == prefix_difference(mem@, s1, s2, n),
{
    let ghost a = mem@.skip(s1 as int);
    let ghost b = mem@.skip(s2 as int);
    let ghost la = choose|len: int| terminated(mem@, s1 as int, len);
    let ghost lb = choose|len: int| terminated(mem@, s2 as int, len);
    let size: usize = mem.len();
    assert(a.skip(0) =~= a && b.skip(0) =~= b);
    let mut i: usize = 0;
    while i < n
        invariant
            size == mem@.len(),
            a == mem@.skip(s1 as int),
            b == mem@.skip(s2 as int),
            s1 <= mem@.len(),
            s2 <= mem@.len(),
            i <= n,
            (terminated(mem@, s1 as int, la) && i <= la) || s1 + n <= mem@.len(),
            (terminated(mem@, s2 as int, lb) && i <= lb) || s2 + n <= mem@.len(),
            difference(a, b, n as nat) == difference(
                a.skip(i as int),
                b.skip(i as int),
                (n - i) as nat,
            ),
        decreases n - i,
    {
        let c1: u8 = mem[s1 + i];
        let c2: u8 = mem[s2 + i];
        assert(a.skip(i as int)[0] == c1 && b.skip(i as int)[0] == c2);
        if c1 != c2 {
            return byte_difference(c1, c2);
        }
        if c1 == 0 {
            return 0;
        }
        assert(a.skip(i as int).skip(1) =~= a.skip(i + 1));
        assert(b.skip(i as int).skip(1) =~= b.skip(i + 1));
        i += 1;
    }
    0
}

/// A string has one length.
pub proof fn string_length_is_unique(mem: Seq<u8>, s: int, len1: int, len2: int)
    requires
        terminated(mem, s, len1),
        terminated(mem, s, len2),
    ensures
        len1 == len2,
{
    if len1 < len2 {
        assert(mem[s + len1] != 0);
    }
    if len2 < len1 {
        assert(mem[s + len2] != 0);
    }
}

/// Swapping the two strings changes the sign of the comparison.
pub proof fn comparison_is_antisymmetric(a: Seq<u8>, b: Seq<u8>, n: nat)
    ensures
        difference(a, b, n) == -difference(b, a, n),
    decreases n,
{
    if n > 0 && a[0] == b[0] && a[0] != 0 {
        comparison_is_antisymmetric(a.skip(1), b.skip(1), (n - 1) as nat);
    }
}

} // verus!
