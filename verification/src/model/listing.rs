//! What an archive holds.

use vstd::prelude::*;

use vstd::utf8::encode_utf8;

use crate::model::archive::{
    all_well_formed, describes, list_entries, offsets_fit, parse_archive,
    parse_error_text, parsed_tensors, shape_product, Entry, TensorModel,
};
use crate::model::error::ModelError;
use crate::text::{bytes_before, bytes_less, lemma_bytes_total, lemma_bytes_transitive};

verus! {

/// What is known of a tensor without its data.
#[derive(Debug, Clone)]
pub struct TensorInfo {
    /// The tensor.
    pub name: String,
    /// The size in each dimension.
    pub shape: Vec<usize>,
    /// The name of the element type.
    pub dtype: String,
    /// The number of elements.
    pub num_elements: usize,
    /// The number of bytes.
    pub size_bytes: usize,
}

/// The shape of an entry can be multiplied out.
pub open spec fn shape_fits(shape: Seq<usize>) -> bool {
    forall|n: int| 0 <= n <= shape.len() ==> #[trigger] shape_product(shape.take(n)) <= usize::MAX
}

/// The information is that of an entry.
pub open spec fn info_of(info: TensorInfo, entry: Entry) -> bool {
    &&& info.name@ == entry.name@
    &&& info.shape@ == entry.shape@
    &&& info.dtype@ == entry.dtype@
    &&& info.num_elements == shape_product(entry.shape@)
    &&& info.size_bytes == entry.size
}

/// The list tells of an entry.
pub open spec fn told(list: Seq<TensorInfo>, entry: Entry) -> bool {
    exists|j: int| 0 <= j < list.len() && info_of(#[trigger] list[j], entry)
}

/// The information is that of one of the entries.
pub open spec fn tells(info: TensorInfo, entries: Seq<Entry>) -> bool {
    exists|i: int| 0 <= i < entries.len() && info_of(info, #[trigger] entries[i])
}

/// The information is that of a tensor.
pub open spec fn info_of_tensor(info: TensorInfo, t: TensorModel) -> bool {
    &&& info.shape@ == t.shape
    &&& info.dtype@ == t.dtype
    &&& info.num_elements == shape_product(t.shape)
    &&& info.size_bytes == t.data.len()
}

/// The names ascend in the order of their bytes.
pub open spec fn ascending(list: Seq<TensorInfo>) -> bool {
    forall|i: int, j: int|
        0 <= i < j < list.len() ==> bytes_before(
            encode_utf8(#[trigger] list[i].name@),
            encode_utf8(#[trigger] list[j].name@),
        )
}

/// The list tells of the tensors, each once, by ascending names.
pub open spec fn listing_of(list: Seq<TensorInfo>, tensors: Map<Seq<char>, TensorModel>) -> bool {
    &&& forall|i: int|
        0 <= i < list.len() ==> tensors.contains_key(#[trigger] list[i].name@) && info_of_tensor(
            list[i],
            tensors[list[i].name@],
        )
    &&& forall|name: Seq<char>| #[trigger]
        tensors.contains_key(name) ==> exists|i: int|
            0 <= i < list.len() && #[trigger] list[i].name@ == name
    &&& ascending(list)
}

/// Multiplies a shape out.
pub fn multiply_out(shape: &Vec<usize>) -> (r: usize)
    requires
        shape_fits(shape@),
    ensures
        r == shape_product(shape@),
{
    let mut r: usize = 1;
    assert(shape@.take(0) =~= Seq::<usize>::empty());
    for i in 0..shape.len()
        invariant
            shape_fits(shape@),
            r == shape_product(shape@.take(i as int)),
    {
        assert(shape@.take(i + 1).drop_last() =~= shape@.take(i as int));
        assert(shape_product(shape@.take(i + 1)) == r as nat * shape@[i as int] as nat);
        r = r * shape[i];
    }
    assert(shape@.take(shape@.len() as int) =~= shape@);
    r
}

/// Two names differ exactly if their bytes do.
proof fn lemma_names(a: Seq<char>, b: Seq<char>)
    requires
        a != b,
    ensures
        encode_utf8(a) != encode_utf8(b),
{
    vstd::utf8::encode_utf8_decode_utf8(a);
    vstd::utf8::encode_utf8_decode_utf8(b);
}

/// Where to put a name in an ascending list.
fn position(list: &Vec<TensorInfo>, name: &String) -> (r: usize)
    requires
        ascending(list@),
        forall|i: int| 0 <= i < list@.len() ==> #[trigger] list@[i].name@ != name@,
    ensures
        r <= list@.len(),
        forall|i: int|
            0 <= i < r ==> bytes_before(encode_utf8(#[trigger] list@[i].name@), encode_utf8(name@)),
        forall|i: int|
            r <= i < list@.len() ==> bytes_before(
                encode_utf8(name@),
                encode_utf8(#[trigger] list@[i].name@),
            ),
{
    let mut r: usize = 0;
    while r < list.len()
        invariant
            r <= list@.len(),
            ascending(list@),
            forall|i: int| 0 <= i < list@.len() ==> #[trigger] list@[i].name@ != name@,
            forall|i: int|
                0 <= i < r ==> bytes_before(
                    encode_utf8(#[trigger] list@[i].name@),
                    encode_utf8(name@),
                ),
        decreases list@.len() - r,
    {
        if bytes_less(name.as_str().as_bytes(), list[r].name.as_str().as_bytes()) {
            proof {
                assert forall|i: int| r <= i < list@.len() implies bytes_before(
                    encode_utf8(name@),
                    encode_utf8(#[trigger] list@[i].name@),
                ) by {
                    if i > r {
                        lemma_bytes_transitive(
                            encode_utf8(name@),
                            encode_utf8(list@[r as int].name@),
                            encode_utf8(list@[i].name@),
                        );
                    }
                }
            }
            return r;
        }
        proof {
            lemma_names(list@[r as int].name@, name@);
            lemma_bytes_total(encode_utf8(list@[r as int].name@), encode_utf8(name@));
        }
        r += 1;
    }
    r
}

/// A list stays ascending if a name is put where it belongs.
proof fn lemma_inserted(before: Seq<TensorInfo>, at: int, info: TensorInfo)
    requires
        ascending(before),
        0 <= at <= before.len(),
        forall|i: int|
            0 <= i < at ==> bytes_before(
                encode_utf8(#[trigger] before[i].name@),
                encode_utf8(info.name@),
            ),
        forall|i: int|
            at <= i < before.len() ==> bytes_before(
                encode_utf8(info.name@),
                encode_utf8(#[trigger] before[i].name@),
            ),
    ensures
        ascending(before.insert(at, info)),
{
    let after = before.insert(at, info);
    assert forall|i: int, j: int| 0 <= i < j < after.len() implies bytes_before(
        encode_utf8(#[trigger] after[i].name@),
        encode_utf8(#[trigger] after[j].name@),
    ) by {
        let x = if i < at { i } else { i - 1 };
        let y = if j < at { j } else { j - 1 };
        if i != at {
            assert(after[i] == before[x]);
        }
        if j != at {
            assert(after[j] == before[y]);
        }
    }
}

/// A list that tells of some entries tells of one more after an insertion.
proof fn lemma_told(
    before: Seq<TensorInfo>,
    at: int,
    info: TensorInfo,
    entries: Seq<Entry>,
    n: int,
)
    requires
        0 <= at <= before.len(),
        0 <= n < entries.len(),
        info_of(info, entries[n]),
        forall|i: int| 0 <= i < n ==> told(before, #[trigger] entries[i]),
        forall|j: int| 0 <= j < before.len() ==> tells(#[trigger] before[j], entries.take(n)),
    ensures
        forall|i: int|
            0 <= i < n + 1 ==> told(before.insert(at, info), #[trigger] entries[i]),
        forall|j: int|
            0 <= j < before.len() + 1 ==> tells(
                #[trigger] before.insert(at, info)[j],
                entries.take(n + 1),
            ),
{
    let after = before.insert(at, info);
    let seen = entries.take(n + 1);
    assert(seen[n] == entries[n]);
    assert(after[at] == info);
    assert forall|j: int| 0 <= j < after.len() implies tells(#[trigger] after[j], seen) by {
        if j != at {
            let k = if j < at { j } else { j - 1 };
            assert(after[j] == before[k]);
            assert(tells(before[k], entries.take(n)));
            let i = choose|i: int|
                0 <= i < n && info_of(before[k], #[trigger] entries.take(n)[i]);
            assert(seen[i] == entries.take(n)[i]);
        } else {
            assert(info_of(after[j], seen[n]));
        }
    }
    assert forall|i: int| 0 <= i < n + 1 implies told(after, #[trigger] entries[i]) by {
        if i < n {
            assert(told(before, entries[i]));
            let j = choose|j: int|
                0 <= j < before.len() && info_of(#[trigger] before[j], entries[i]);
            let k = if j < at { j } else { j + 1 };
            assert(after[k] == before[j]);
        }
    }
}

/// Tells of the tensors by ascending names.
pub fn sort_listing(entries: Vec<Entry>) -> (list: Vec<TensorInfo>)
    requires
        forall|i: int| 0 <= i < entries@.len() ==> shape_fits(#[trigger] entries@[i].shape@),
        forall|i: int, j: int|
            0 <= i < j < entries@.len() ==> #[trigger] entries@[i].name@
                != #[trigger] entries@[j].name@,
    ensures
        list@.len() == entries@.len(),
        ascending(list@),
        forall|i: int| 0 <= i < entries@.len() ==> told(list@, #[trigger] entries@[i]),
        forall|j: int| 0 <= j < list@.len() ==> tells(#[trigger] list@[j], entries@),
{
    let mut list: Vec<TensorInfo> = Vec::new();
    for n in 0..entries.len()
        invariant
            list@.len() == n,
            ascending(list@),
            forall|i: int| 0 <= i < entries@.len() ==> shape_fits(#[trigger] entries@[i].shape@),
            forall|i: int, j: int|
                0 <= i < j < entries@.len() ==> #[trigger] entries@[i].name@
                    != #[trigger] entries@[j].name@,
            forall|i: int| 0 <= i < n ==> told(list@, #[trigger] entries@[i]),
            forall|j: int|
                0 <= j < list@.len() ==> tells(#[trigger] list@[j], entries@.take(n as int)),
    {
        let entry = &entries[n];
        let info = TensorInfo {
            name: entry.name.clone(),
            shape: copy_shape(&entry.shape),
            dtype: entry.dtype.clone(),
            num_elements: multiply_out(&entry.shape),
            size_bytes: entry.size,
        };
        let ghost before = list@;
        let at: usize = position(&list, &entry.name);
        list.insert(at, info);
        proof {
            lemma_inserted(before, at as int, list@[at as int]);
            lemma_told(before, at as int, list@[at as int], entries@, n as int);
        }
    }
    assert(entries@.take(entries@.len() as int) =~= entries@);
    list
}

/// A copy of a shape.
pub(crate) fn copy_shape(shape: &[usize]) -> (r: Vec<usize>)
    ensures
        r@ == shape@,
{
    let mut r: Vec<usize> = Vec::new();
    for i in 0..shape.len()
        invariant
            r@ == shape@.take(i as int),
    {
        r.push(shape[i]);
        assert(r@ =~= shape@.take(i + 1));
    }
    assert(shape@.take(shape@.len() as int) =~= shape@);
    r
}

/// Lists the tensors of an archive by ascending names.
pub fn list_tensors(data: &[u8]) -> (r: Result<Vec<TensorInfo>, ModelError>)
    requires
        offsets_fit(data@),
    ensures
        match (r, parsed_tensors(data@)) {
            (Ok(list), Some(tensors)) => listing_of(list@, tensors),
            (Err(ModelError::SafeTensors(_)), None) => true,
            _ => false,
        },
{
    match parse_archive(data) {
        Ok(archive) => {
            let ghost tensors = parsed_tensors(data@)->0;
            let entries = list_entries(&archive);
            let ghost all = entries@;
            assert(all_well_formed(tensors));
            assert forall|i: int| 0 <= i < all.len() implies shape_fits(#[trigger] all[i].shape@) by {
                assert(tensors.contains_key(all[i].name@));
                assert(describes(all[i], tensors[all[i].name@]));
            }
            let list = sort_listing(entries);
            proof {
                assert forall|i: int| 0 <= i < list@.len() implies tensors.contains_key(
                    #[trigger] list@[i].name@,
                ) && info_of_tensor(list@[i], tensors[list@[i].name@]) by {
                    assert(tells(list@[i], all));
                    let k = choose|k: int|
                        0 <= k < all.len() && info_of(list@[i], #[trigger] all[k]);
                    assert(all[k].name@ == list@[i].name@);
                }
                assert forall|name: Seq<char>| #[trigger]
                    tensors.contains_key(name) implies exists|i: int|
                    0 <= i < list@.len() && #[trigger] list@[i].name@ == name by {
                    let k = choose|k: int| 0 <= k < all.len() && #[trigger] all[k].name@ == name;
                    assert(told(list@, all[k]));
                    let i = choose|i: int|
                        0 <= i < list@.len() && info_of(#[trigger] list@[i], all[k]);
                    assert(list@[i].name@ == name);
                }
            }
            Ok(list)
        },
        Err(e) => Err(ModelError::SafeTensors(parse_error_text(&e))),
    }
}

} // verus!
