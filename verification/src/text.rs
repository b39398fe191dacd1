//! Text as bytes: decimal numbers, lines and UTF-8.

use vstd::prelude::*;
use vstd::utf8::{decode_utf8, valid_utf8};

verus! {

/// The ASCII digit for a number below ten.
pub open spec fn digit(d: int) -> u8 {
    (48 + d) as u8
}

/// A number in decimal, without leading zeros.
pub open spec fn decimal(n: nat) -> Seq<u8>
    decreases n,
{
    if n < 10 {
        seq![digit(n as int)]
    } else {
        decimal(n / 10).push(digit((n % 10) as int))
    }
}

/// A number in decimal.
pub fn to_decimal(n: u64) -> (r: Vec<u8>)
    ensures
        r@ == decimal(n as nat),
    decreases n,
{
    if n < 10 {
        let mut r: Vec<u8> = Vec::new();
        r.push(48 + n as u8);
        assert(r@ =~= decimal(n as nat));
        r
    } else {
        let mut r = to_decimal(n / 10);
        r.push(48 + (n % 10) as u8);
        r
    }
}

/// Appends bytes to a buffer.
pub fn append(out: &mut Vec<u8>, bytes: &[u8])
    ensures
        final(out)@ == old(out)@ + bytes@,
{
    let ghost before = out@;
    for i in 0..bytes.len()
        invariant
            out@ == before + bytes@.take(i as int),
    {
        assert(bytes@.take(i as int).push(bytes@[i as int]) =~= bytes@.take(i + 1));
        out.push(bytes[i]);
    }
    assert(bytes@.take(bytes@.len() as int) =~= bytes@);
}

/// How many lines there are in a text: one for each line feed, and one more for
/// text after the last of them.
pub open spec fn line_count(text: Seq<u8>) -> nat
    decreases text.len(),
{
    if text.len() == 0 {
        0
    } else if text.last() == 10 {
        newlines(text)
    } else {
        newlines(text) + 1
    }
}

/// How many line feeds there are in a text.
pub open spec fn newlines(text: Seq<u8>) -> nat
    decreases text.len(),
{
    if text.len() == 0 {
        0
    } else {
        newlines(text.drop_last()) + if text.last() == 10 {
            1nat
        } else {
            0nat
        }
    }
}

/// Counts the lines of a text.
pub fn count_lines(text: &[u8]) -> (n: usize)
    ensures
        n == line_count(text@),
{
    let mut n: usize = 0;
    for i in 0..text.len()
        invariant
            n == newlines(text@.take(i as int)),
            n <= i,
    {
        assert(text@.take(i + 1).drop_last() =~= text@.take(i as int));
        if text[i] == 10 {
            n += 1;
        }
    }
    assert(text@.take(text@.len() as int) =~= text@);
    let len: usize = text.len();
    if len > 0 && text[len - 1] != 10 {
        proof {
            assert(newlines(text@) == newlines(text@.drop_last()));
            lemma_newlines_bound(text@.drop_last());
        }
        n += 1;
    }
    n
}

proof fn lemma_newlines_bound(text: Seq<u8>)
    ensures
        newlines(text) <= text.len(),
    decreases text.len(),
{
    if text.len() > 0 {
        lemma_newlines_bound(text.drop_last());
    }
}

/// The character of a digit.
pub open spec fn digit_char(d: int) -> char {
    (48 + d) as u8 as char
}

/// A number in decimal, as characters.
pub open spec fn decimal_chars(n: nat) -> Seq<char>
    decreases n,
{
    if n < 10 {
        seq![digit_char(n as int)]
    } else {
        decimal_chars(n / 10).push(digit_char((n % 10) as int))
    }
}

fn digit_str(d: u64) -> (r: &'static str)
    requires
        d < 10,
    ensures
        r@ == seq![digit_char(d as int)],
{
    proof {
        reveal_strlit("0");
        reveal_strlit("1");
        reveal_strlit("2");
        reveal_strlit("3");
        reveal_strlit("4");
        reveal_strlit("5");
        reveal_strlit("6");
        reveal_strlit("7");
        reveal_strlit("8");
        reveal_strlit("9");
    }
    let r = match d {
        0 => "0",
        1 => "1",
        2 => "2",
        3 => "3",
        4 => "4",
        5 => "5",
        6 => "6",
        7 => "7",
        8 => "8",
        _ => "9",
    };
    assert(r@ =~= seq![digit_char(d as int)]);
    r
}

/// A number in decimal, as text.
pub fn decimal_text(n: u64) -> (r: String)
    ensures
        r@ == decimal_chars(n as nat),
    decreases n,
{
    if n < 10 {
        digit_str(n).to_string()
    } else {
        let mut r = decimal_text(n / 10);
        r.append(digit_str(n % 10));
        assert(r@ =~= decimal_chars(n as nat));
        r
    }
}

/// A list of numbers as text, in brackets and separated by commas.
pub open spec fn list_chars(items: Seq<usize>) -> Seq<char> {
    "["@ + list_items(items) + "]"@
}

/// The numbers of a list, separated by commas.
pub open spec fn list_items(items: Seq<usize>) -> Seq<char>
    decreases items.len(),
{
    if items.len() == 0 {
        Seq::empty()
    } else if items.len() == 1 {
        decimal_chars(items[0] as nat)
    } else {
        list_items(items.drop_last()) + ", "@ + decimal_chars(items.last() as nat)
    }
}

/// A list of numbers as text.
pub fn list_text(items: &Vec<usize>) -> (r: String)
    ensures
        r@ == list_chars(items@),
{
    let mut r = "[".to_string();
    for i in 0..items.len()
        invariant
            r@ == "["@ + list_items(items@.take(i as int)),
    {
        let ghost before = r@;
        assert(items@.take(i + 1).drop_last() =~= items@.take(i as int));
        assert(items@.take(i + 1).last() == items@[i as int]);
        if i > 0 {
            r.append(", ");
        }
        let number = decimal_text(items[i] as u64);
        r.append(number.as_str());
        assert(r@ =~= "["@ + list_items(items@.take(i + 1)));
    }
    assert(items@.take(items@.len() as int) =~= items@);
    r.append("]");
    r
}

/// One byte sequence comes before another in the order of bytes.
pub open spec fn bytes_before(a: Seq<u8>, b: Seq<u8>) -> bool
    decreases a.len(),
{
    if b.len() == 0 {
        false
    } else if a.len() == 0 {
        true
    } else if a[0] != b[0] {
        a[0] < b[0]
    } else {
        bytes_before(a.skip(1), b.skip(1))
    }
}

/// Whether one byte sequence comes before another.
pub fn bytes_less(a: &[u8], b: &[u8]) -> (r: bool)
    ensures
        r == bytes_before(a@, b@),
{
    let mut i: usize = 0;
    assert(a@.skip(0) =~= a@ && b@.skip(0) =~= b@);
    loop
        invariant
            i <= a@.len(),
            i <= b@.len(),
            bytes_before(a@, b@) == bytes_before(a@.skip(i as int), b@.skip(i as int)),
        decreases a@.len() - i,
    {
        if i == b.len() {
            return false;
        }
        if i == a.len() {
            return true;
        }
        if a[i] != b[i] {
            return a[i] < b[i];
        }
        assert(a@.skip(i as int).skip(1) =~= a@.skip(i + 1));
        assert(b@.skip(i as int).skip(1) =~= b@.skip(i + 1));
        i += 1;
    }
}

/// Of two different byte sequences one comes before the other.
pub(crate) proof fn lemma_bytes_total(a: Seq<u8>, b: Seq<u8>)
    requires
        a != b,
    ensures
        bytes_before(a, b) || bytes_before(b, a),
    decreases a.len(),
{
    if a.len() > 0 && b.len() > 0 && a[0] == b[0] {
        if a.skip(1) == b.skip(1) {
            assert(a =~= seq![a[0]] + a.skip(1));
            assert(b =~= seq![b[0]] + b.skip(1));
        }
        lemma_bytes_total(a.skip(1), b.skip(1));
    } else if a.len() == 0 && b.len() == 0 {
        assert(a =~= b);
    }
}

/// The order of bytes is transitive.
pub(crate) proof fn lemma_bytes_transitive(a: Seq<u8>, b: Seq<u8>, c: Seq<u8>)
    requires
        bytes_before(a, b),
        bytes_before(b, c),
    ensures
        bytes_before(a, c),
    decreases a.len(),
{
    if a.len() > 0 && a[0] == b[0] && b[0] == c[0] {
        lemma_bytes_transitive(a.skip(1), b.skip(1), c.skip(1));
    }
}

/// The characters with the Unicode property `White_Space`.
pub open spec fn is_white_space(c: char) -> bool {
    let u = c as u32;
    ||| 0x9 <= u <= 0xD
    ||| u == 0x20
    ||| u == 0x85
    ||| u == 0xA0
    ||| u == 0x1680
    ||| 0x2000 <= u <= 0x200A
    ||| u == 0x2028
    ||| u == 0x2029
    ||| u == 0x202F
    ||| u == 0x205F
    ||| u == 0x3000
}

/// Whether a character is white space.
pub(crate) fn white_space(c: char) -> (r: bool)
    ensures
        r == is_white_space(c),
{
    let u: u32 = c as u32;
    (0x9 <= u && u <= 0xD) || u == 0x20 || u == 0x85 || u == 0xA0 || u == 0x1680 || (0x2000 <= u
        && u <= 0x200A) || u == 0x2028 || u == 0x2029 || u == 0x202F || u == 0x205F || u == 0x3000
}

/// A text without the white space at its front.
pub open spec fn trimmed_front(text: Seq<char>) -> Seq<char>
    decreases text.len(),
{
    if text.len() > 0 && is_white_space(text[0]) {
        trimmed_front(text.skip(1))
    } else {
        text
    }
}

/// A text without the white space at its back.
pub open spec fn trimmed_back(text: Seq<char>) -> Seq<char>
    decreases text.len(),
{
    if text.len() > 0 && is_white_space(text.last()) {
        trimmed_back(text.drop_last())
    } else {
        text
    }
}

/// A text without the white space at its ends.
pub open spec fn trimmed(text: Seq<char>) -> Seq<char> {
    trimmed_back(trimmed_front(text))
}

/// Takes the white space off the ends of a text.
pub fn trim(text: &str) -> (r: String)
    ensures
        r@ == trimmed(text@),
{
    let len: usize = text.unicode_len();
    let ghost all = text@;
    let mut start: usize = 0;
    assert(all.skip(0) =~= all);
    while start < len && white_space(text.get_char(start))
        invariant
            all == text@,
            len == all.len(),
            start <= len,
            trimmed_front(all) == trimmed_front(all.skip(start as int)),
        decreases len - start,
    {
        assert(all.skip(start as int)[0] == all[start as int]);
        assert(all.skip(start as int).skip(1) =~= all.skip(start + 1));
        start += 1;
    }
    let ghost front = all.skip(start as int);
    assert(start < len ==> front[0] == all[start as int]);
    assert(trimmed_front(all) == front);
    let mut end: usize = len;
    assert(all.subrange(start as int, end as int) =~= front);
    while end > start && white_space(text.get_char(end - 1))
        invariant
            all == text@,
            len == all.len(),
            start <= end <= len,
            front == all.skip(start as int),
            trimmed_back(front) == trimmed_back(all.subrange(start as int, end as int)),
        decreases end,
    {
        let ghost part = all.subrange(start as int, end as int);
        assert(part.last() == all[end - 1]);
        assert(part.drop_last() =~= all.subrange(start as int, end - 1));
        end -= 1;
    }
    let ghost part = all.subrange(start as int, end as int);
    assert(end > start ==> part.last() == all[end - 1]);
    assert(trimmed_back(front) == part);
    text.substring_char(start, end).to_string()
}

/// Reads bytes as UTF-8 with `std::str::from_utf8`: the text, or `None` if the
/// bytes are not valid UTF-8. The claim is that std accepts exactly the valid
/// encodings and that the text holds the characters that the bytes encode.
#[verifier::external_body]
pub(crate) fn utf8_text(bytes: &[u8]) -> (r: Option<String>)
    ensures
        match r {
            Some(s) => valid_utf8(bytes@) && s@ == decode_utf8(bytes@),
            None => !valid_utf8(bytes@),
        },
{
    std::str::from_utf8(bytes).ok().map(|s| s.to_string())
}

} // verus!
