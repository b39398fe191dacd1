//! Safetensors archives.

use vstd::prelude::*;

use safetensors::{SafeTensorError, SafeTensors};

use crate::bytes::{read_slot, slot_at};

verus! {

/// A tensor of an archive: the name of its element type, its shape and its bytes.
#[derive(Debug, Clone)]
pub struct Tensor {
    /// The name of the element type, such as `F32`.
    pub dtype: String,
    /// The size in each dimension.
    pub shape: Vec<usize>,
    /// The elements, in little-endian byte order.
    pub data: Vec<u8>,
}

/// What a [`Tensor`] holds.
pub struct TensorModel {
    /// The name of the element type.
    pub dtype: Seq<char>,
    /// The size in each dimension.
    pub shape: Seq<usize>,
    /// The elements.
    pub data: Seq<u8>,
}

impl View for Tensor {
    type V = TensorModel;

    open spec fn view(&self) -> TensorModel {
        TensorModel { dtype: self.dtype@, shape: self.shape@, data: self.data@ }
    }
}

/// A tensor of an archive without its bytes.
#[derive(Debug, Clone)]
pub struct Entry {
    /// The tensor.
    pub name: String,
    /// The name of the element type.
    pub dtype: String,
    /// The size in each dimension.
    pub shape: Vec<usize>,
    /// The number of bytes.
    pub size: usize,
}

/// An archive of `safetensors`. What it holds is [`archive_tensors`].
#[verifier::external_type_specification]
#[verifier::external_body]
pub struct ExSafeTensors<'data>(SafeTensors<'data>);

/// The errors of `safetensors`.
#[verifier::external_type_specification]
#[verifier::external_body]
pub struct ExSafeTensorError(SafeTensorError);

/// The tensors that an archive holds, by name.
pub uninterp spec fn archive_tensors(archive: SafeTensors<'_>) -> Map<Seq<char>, TensorModel>;

/// The tensors of the archive that `SafeTensors::deserialize` reads from bytes; none where
/// it refuses them.
pub uninterp spec fn parsed_tensors(data: Seq<u8>) -> Option<Map<Seq<char>, TensorModel>>;

/// The number of elements of a tensor.
pub open spec fn shape_product(shape: Seq<usize>) -> nat
    decreases shape.len(),
{
    if shape.len() == 0 {
        1
    } else {
        shape_product(shape.drop_last()) * shape.last() as nat
    }
}

/// A tensor's shape can be multiplied out, and 32-bit elements fill its bytes.
pub open spec fn well_formed(t: TensorModel) -> bool {
    &&& forall|n: int|
        0 <= n <= t.shape.len() ==> #[trigger] shape_product(t.shape.take(n)) <= usize::MAX
    &&& t.dtype == "F32"@ ==> t.data.len() == 4 * shape_product(t.shape)
}

/// All tensors are well formed.
pub open spec fn all_well_formed(tensors: Map<Seq<char>, TensorModel>) -> bool {
    forall|name: Seq<char>|
        tensors.contains_key(name) ==> well_formed(#[trigger] tensors[name])
}

/// The largest header that an archive can have.
pub const MAX_HEADER_BYTES: u64 = 100000000;

/// The header of an archive; empty where the bytes hold none.
pub open spec fn header(data: Seq<u8>) -> Seq<u8> {
    if data.len() >= 8 && slot_at(data, 0) <= MAX_HEADER_BYTES && 8 + slot_at(data, 0)
        <= data.len() {
        data.subrange(8, 8 + slot_at(data, 0) as int)
    } else {
        Seq::empty()
    }
}

/// Where a place in a header stands with respect to strings.
#[derive(Clone, Copy, Debug, PartialEq, Eq, Structural)]
pub enum Quotes {
    /// Outside of strings.
    Outside,
    /// Inside a string.
    Inside,
    /// Inside a string, behind a backslash.
    Escaped,
}

/// What a string in a header is.
#[derive(Clone, Copy, Debug, PartialEq, Eq, Structural)]
pub enum Word {
    /// So many of the first characters of `data_offsets`.
    Offsets(u8),
    /// Something with an escape, which may stand for any character.
    Escapes,
    /// Anything else.
    Other,
}

/// What is known of a header after a part of it.
#[derive(Clone, Copy, Debug, PartialEq, Eq, Structural)]
pub struct HeaderScan {
    pub quotes: Quotes,
    /// The latest string.
    pub word: Word,
    /// The part ends with a string and a colon, spaces aside.
    pub key: bool,
    /// The latest bracket may open the offsets of a tensor.
    pub offsets: bool,
    /// The number at the end of the part, spaces aside. A number that no `usize` holds
    /// counts as the first such number.
    pub number: Option<u128>,
    /// An offset at which a tensor ends cannot be added to what precedes the data.
    pub overflows: bool,
}

/// The characters of `data_offsets`.
pub open spec fn offsets_key() -> Seq<u8> {
    seq![100u8, 97, 116, 97, 95, 111, 102, 102, 115, 101, 116, 115]
}

/// The first number that no `usize` holds.
pub open spec fn beyond_usize() -> u128 {
    (usize::MAX + 1) as u128
}

/// A string with one more character.
pub open spec fn longer_word(word: Word, c: u8) -> Word {
    match word {
        Word::Offsets(n) => if n < 12 && c == offsets_key()[n as int] {
            Word::Offsets((n + 1) as u8)
        } else {
            Word::Other
        },
        _ => word,
    }
}

/// A number with one more digit.
pub open spec fn longer_number(number: Option<u128>, d: int) -> Option<u128> {
    let value = match number {
        Some(v) => v * 10 + d,
        None => d,
    };
    if value <= usize::MAX {
        Some(value as u128)
    } else {
        Some(beyond_usize())
    }
}

/// The number is an offset that cannot be added to `front` bytes.
pub open spec fn too_far(number: Option<u128>, front: int) -> bool {
    match number {
        Some(v) => v <= usize::MAX && v + front > usize::MAX,
        None => false,
    }
}

/// What is known after one more character. `front` is the number of bytes that precede
/// the data.
pub open spec fn scan_step(s: HeaderScan, c: u8, front: int) -> HeaderScan {
    match s.quotes {
        Quotes::Escaped => HeaderScan { quotes: Quotes::Inside, word: Word::Escapes, ..s },
        Quotes::Inside => if c == 34 {
            HeaderScan { quotes: Quotes::Outside, ..s }
        } else if c == 92 {
            HeaderScan { quotes: Quotes::Escaped, ..s }
        } else {
            HeaderScan { word: longer_word(s.word, c), ..s }
        },
        Quotes::Outside => if c == 34 {
            HeaderScan {
                quotes: Quotes::Inside,
                word: Word::Offsets(0),
                key: false,
                number: None,
                ..s
            }
        } else if c == 32 || c == 9 || c == 10 || c == 13 {
            s
        } else if 48 <= c <= 57 {
            HeaderScan { key: false, number: longer_number(s.number, c - 48), ..s }
        } else if c == 58 {
            HeaderScan { key: true, number: None, ..s }
        } else if c == 91 {
            HeaderScan {
                key: false,
                offsets: !s.key || s.word == Word::Offsets(12) || s.word == Word::Escapes,
                number: None,
                ..s
            }
        } else if c == 93 {
            HeaderScan {
                key: false,
                offsets: false,
                number: None,
                overflows: s.overflows || (s.offsets && too_far(s.number, front)),
                ..s
            }
        } else {
            HeaderScan { key: false, number: None, ..s }
        },
    }
}

/// What is known after a part of a header.
pub open spec fn scanned(text: Seq<u8>, front: int) -> HeaderScan
    decreases text.len(),
{
    if text.len() == 0 {
        HeaderScan {
            quotes: Quotes::Outside,
            word: Word::Other,
            key: false,
            offsets: false,
            number: None,
            overflows: false,
        }
    } else {
        scan_step(scanned(text.drop_last(), front), text.last(), front)
    }
}

/// Every offset at which a tensor may end can be added to the length of what precedes the
/// data: its length's eight bytes and the header.
pub open spec fn offsets_fit(data: Seq<u8>) -> bool {
    !scanned(header(data), 8 + header(data).len() as int).overflows
}

fn offsets_key_at(n: u8) -> (r: u8)
    requires
        n < 12,
    ensures
        r == offsets_key()[n as int],
{
    match n {
        0 => 100,
        1 => 97,
        2 => 116,
        3 => 97,
        4 => 95,
        5 => 111,
        6 => 102,
        7 => 102,
        8 => 115,
        9 => 101,
        10 => 116,
        _ => 115,
    }
}

fn scan_next(s: HeaderScan, c: u8, front: usize) -> (r: HeaderScan)
    requires
        match s.number {
            Some(v) => v <= beyond_usize(),
            None => true,
        },
    ensures
        r == scan_step(s, c, front as int),
        match r.number {
            Some(v) => v <= beyond_usize(),
            None => true,
        },
{
    let mut r: HeaderScan = s;
    match s.quotes {
        Quotes::Escaped => {
            r.quotes = Quotes::Inside;
            r.word = Word::Escapes;
        },
        Quotes::Inside => {
            if c == 34 {
                r.quotes = Quotes::Outside;
            } else if c == 92 {
                r.quotes = Quotes::Escaped;
            } else {
                match s.word {
                    Word::Offsets(n) => {
                        if n < 12 && c == offsets_key_at(n) {
                            r.word = Word::Offsets(n + 1);
                        } else {
                            r.word = Word::Other;
                        }
                    },
                    _ => {},
                }
            }
        },
        Quotes::Outside => {
            if c == 34 {
                r.quotes = Quotes::Inside;
                r.word = Word::Offsets(0);
                r.key = false;
                r.number = None;
            } else if c == 32 || c == 9 || c == 10 || c == 13 {
                // A space changes nothing.
            } else if 48 <= c && c <= 57 {
                let value: u128 = match s.number {
                    Some(v) => v * 10 + (c - 48) as u128,
                    None => (c - 48) as u128,
                };
                r.key = false;
                r.number = if value <= usize::MAX as u128 {
                    Some(value)
                } else {
                    Some(usize::MAX as u128 + 1)
                };
            } else if c == 58 {
                r.key = true;
                r.number = None;
            } else if c == 91 {
                r.key = false;
                r.offsets = !s.key || match s.word {
                    Word::Offsets(n) => n == 12,
                    Word::Escapes => true,
                    Word::Other => false,
                };
                r.number = None;
            } else if c == 93 {
                let far: bool = match s.number {
                    Some(v) => v <= usize::MAX as u128 && v + front as u128 > usize::MAX as u128,
                    None => false,
                };
                r.key = false;
                r.offsets = false;
                r.number = None;
                r.overflows = s.overflows || (s.offsets && far);
            } else {
                r.key = false;
                r.number = None;
            }
        },
    }
    r
}

/// Whether the offsets in the header of an archive can be added up.
pub fn header_offsets_fit(data: &[u8]) -> (r: bool)
    ensures
        r == offsets_fit(data@),
{
    let len: usize = data.len();
    if len < 8 {
        return true;
    }
    let n: u64 = read_slot(data, 0);
    if n > MAX_HEADER_BYTES || n > (len - 8) as u64 {
        return true;
    }
    let size: usize = n as usize;
    let ghost h = header(data@);
    let mut s: HeaderScan = HeaderScan {
        quotes: Quotes::Outside,
        word: Word::Other,
        key: false,
        offsets: false,
        number: None,
        overflows: false,
    };
    assert(h.take(0) =~= Seq::<u8>::empty());
    for i in 0..size
        invariant
            len == data@.len(),
            8 + size <= len,
            h == data@.subrange(8, 8 + size as int),
            s == scanned(h.take(i as int), 8 + size),
            match s.number {
                Some(v) => v <= beyond_usize(),
                None => true,
            },
    {
        assert(h.take(i + 1).drop_last() =~= h.take(i as int));
        assert(h.take(i + 1).last() == data@[8 + i]);
        s = scan_next(s, data[8 + i], 8 + size);
    }
    assert(h.take(size as int) =~= h);
    !s.overflows
}

/// Reads an archive with `SafeTensors::deserialize`. The claim is that the bytes alone
/// decide whether it succeeds and which tensors come out, and that what comes out was
/// validated: each shape can be multiplied out without overflow, and a tensor has as many
/// bytes as its elements take. Which error comes back is left unsaid: where several tensors
/// are wrong it depends on the order of a hash map. Headers are left out in which the offset
/// where a tensor ends, plus the header's length and the eight bytes in front of it, is more
/// than a `usize` holds: that sum may overflow.
#[verifier::external_body]
pub(crate) fn parse_archive(data: &[u8]) -> (r: Result<SafeTensors<'_>, SafeTensorError>)
    requires
        offsets_fit(data@),
    ensures
        match (r, parsed_tensors(data@)) {
            (Ok(archive), Some(tensors)) => archive_tensors(archive) == tensors
                && all_well_formed(tensors),
            (Err(_), None) => true,
            _ => false,
        },
{
    SafeTensors::deserialize(data)
}

/// The words of an error of `safetensors`, by its `Display`. Nothing is claimed of them.
#[verifier::external_body]
pub(crate) fn parse_error_text(error: &SafeTensorError) -> (r: String) {
    format!("{error}")
}

/// Looks a tensor up with `SafeTensors::tensor`. The claim is that it is found exactly if
/// the archive holds one of that name. `{:?}` of the element type is its name.
#[verifier::external_body]
pub(crate) fn find_tensor(archive: &SafeTensors<'_>, name: &str) -> (r: Option<Tensor>)
    ensures
        match r {
            Some(t) => archive_tensors(*archive).contains_key(name@) && t@ == archive_tensors(
                *archive,
            )[name@],
            None => !archive_tensors(*archive).contains_key(name@),
        },
{
    match archive.tensor(name) {
        Ok(view) => Some(
            Tensor {
                dtype: format!("{:?}", view.dtype()),
                shape: view.shape().to_vec(),
                data: view.data().to_vec(),
            },
        ),
        Err(_) => None,
    }
}

/// An entry describes a tensor.
pub open spec fn describes(entry: Entry, t: TensorModel) -> bool {
    &&& entry.dtype@ == t.dtype
    &&& entry.shape@ == t.shape
    &&& entry.size == t.data.len()
}

/// The entries describe the tensors, each once, in any order.
pub open spec fn entries_of(entries: Seq<Entry>, tensors: Map<Seq<char>, TensorModel>) -> bool {
    &&& forall|i: int|
        0 <= i < entries.len() ==> tensors.contains_key(#[trigger] entries[i].name@) && describes(
            entries[i],
            tensors[entries[i].name@],
        )
    &&& forall|i: int, j: int|
        0 <= i < j < entries.len() ==> #[trigger] entries[i].name@ != #[trigger] entries[j].name@
    &&& forall|name: Seq<char>| #[trigger]
        tensors.contains_key(name) ==> exists|i: int|
            0 <= i < entries.len() && #[trigger] entries[i].name@ == name
}

/// Lists the tensors with `SafeTensors::tensors`. The claim is that each tensor of the
/// archive comes out once; the order is that of a hash map and left unsaid.
#[verifier::external_body]
pub(crate) fn list_entries(archive: &SafeTensors<'_>) -> (r: Vec<Entry>)
    ensures
        entries_of(r@, archive_tensors(*archive)),
{
    archive.tensors().into_iter().map(
        |(name, view)| Entry {
            name,
            dtype: format!("{:?}", view.dtype()),
            shape: view.shape().to_vec(),
            size: view.data().len(),
        },
    ).collect()
}

} // verus!
