//! The decoding half of the codec: bytes to values.

use std::collections::{BTreeMap, BTreeSet, HashMap, HashSet};
use std::hash::Hash;
use vstd::bytes::*;
use vstd::laws_cmp::obeys_cmp;
use vstd::prelude::*;
use vstd::std_specs::hash::{builds_valid_hashers, obeys_key_model};
use vstd::utf8::{decode_utf8, valid_utf8};

verus! {

/// # DeserializerData
///
/// Trait for converting bytes back into a value.
///
/// `spec_decodes(data, index, v, end)` is the wire relation: decoding
/// `data` at cursor `index` succeeds, reconstructs `v`, and leaves the
/// cursor at `end` (the first byte not consumed).  A composite type
/// implemented outside this library only provides `from_data`; its wire
/// relation then stays at the default, which relates nothing, so
/// nothing is proved about buffers that contain it.  The
/// implementations in this library all spell their relation out, and
/// [`codec_laws`] states the discipline those relations share.
///
/// The library implements the trait for:
/// - u8, u16, u32, u64, u128, usize
/// - i8, i16, i32, i64, i128, isize
/// - char
/// - bool
/// - String
/// - Option<T>
/// - (K, V) key-value entries
/// - Vec<T>, VecDeque<T>
/// - HashSet<T>, BTreeSet<T>
/// - HashMap<K, V>, BTreeMap<K, V>
pub trait DeserializerData: Sized {
    /// Decoding `data` at `index` yields `v` and the new cursor `end`.
    open spec fn spec_decodes(data: Seq<u8>, index: int, v: Self, end: int) -> bool {
        false
    }

    /// Convert bytes back into a value, returning it together with the
    /// index of the first byte after it, so that another value can be
    /// decoded from there.
    fn from_data(data: &Vec<u8>, index: usize) -> (res: (Self, usize))
        requires
            exists|v: Self, end: int| Self::spec_decodes(data@, index as int, v, end),
        ensures
            Self::spec_decodes(data@, index as int, res.0, res.1 as int),
    ;
}

/// `v` decodes from the window of `data` between `index` and `end`,
/// taken on its own and consumed whole.
#[verifier::opaque]
pub open spec fn decodes_in_window<T: DeserializerData>(
    data: Seq<u8>,
    index: int,
    end: int,
    v: T,
) -> bool {
    T::spec_decodes(data.subrange(index, end), 0, v, end - index)
}

/// The discipline a wire relation must obey for containers of the type
/// to be decodable: a decoded value occupies at least one byte and
/// stays inside the buffer; decoding depends only on the consumed
/// window, not on where it sits or what follows it; and how many bytes
/// are consumed is a function of the buffer and the start index.
pub open spec fn codec_laws<T: DeserializerData>() -> bool {
    &&& forall|data: Seq<u8>, index: int, v: T, end: int|
        #[trigger] T::spec_decodes(data, index, v, end) && 0 <= index ==> index < end <= data.len()
            && decodes_in_window(data, index, end, v)
    &&& forall|data: Seq<u8>, index: int, end: int, v: T|
        #[trigger] decodes_in_window(data, index, end, v) && 0 <= index && index < end
            && end <= data.len() ==> T::spec_decodes(data, index, v, end)
    &&& forall|data: Seq<u8>, index: int, v1: T, e1: int, v2: T, e2: int|
        #![trigger T::spec_decodes(data, index, v1, e1), T::spec_decodes(data, index, v2, e2)]
        T::spec_decodes(data, index, v1, e1) && T::spec_decodes(data, index, v2, e2) && 0 <= index
            ==> e1 == e2
}

/// Two equal byte windows agree on every aligned sub-window.
pub proof fn lemma_subwindow(
    data1: Seq<u8>,
    index1: int,
    data2: Seq<u8>,
    index2: int,
    m: int,
    a: int,
    b: int,
)
    requires
        0 <= index1,
        index1 + m <= data1.len(),
        0 <= index2,
        index2 + m <= data2.len(),
        data2.subrange(index2, index2 + m) == data1.subrange(index1, index1 + m),
        0 <= a <= b <= m,
    ensures
        data2.subrange(index2 + a, index2 + b) == data1.subrange(index1 + a, index1 + b),
{
    assert forall|k: int| 0 <= k < b - a implies #[trigger] data2.subrange(
        index2 + a,
        index2 + b,
    )[k] == data1.subrange(index1 + a, index1 + b)[k] by {
        assert(data2.subrange(index2 + a, index2 + b)[k] == data2[index2 + a + k]);
        assert(data1.subrange(index1 + a, index1 + b)[k] == data1[index1 + a + k]);
        assert(data2.subrange(index2, index2 + m)[a + k] == data2[index2 + a + k]);
        assert(data1.subrange(index1, index1 + m)[a + k] == data1[index1 + a + k]);
        assert(data2.subrange(index2, index2 + m)[a + k] == data1.subrange(
            index1,
            index1 + m,
        )[a + k]);
    }
    assert(data2.subrange(index2 + a, index2 + b) =~= data1.subrange(index1 + a, index1 + b));
}

/// A copy of the `size` bytes of `data` that start at `index`.
/// `struct_name` names the type being decoded, for diagnostics.
pub fn sub(struct_name: &str, data: &Vec<u8>, index: usize, size: usize) -> (res: Vec<u8>)
    requires
        index + size <= data@.len(),
    ensures
        res@ == data@.subrange(index as int, index + size),
{
    let _ = struct_name;
    let n = data.len();
    let mut res: Vec<u8> = Vec::new();
    let mut i: usize = 0;
    while i < size
        invariant
            i <= size,
            index + size <= n,
            n == data@.len(),
            res@ == data@.subrange(index as int, index + i),
        decreases size - i,
    {
        res.push(data[index + i]);
        proof {
            assert(data@.subrange(index as int, index + i + 1) =~= data@.subrange(
                index as int,
                index + i,
            ).push(data@[index + i]));
        }
        i += 1;
    }
    res
}

impl DeserializerData for usize {
    open spec fn spec_decodes(data: Seq<u8>, index: int, v: usize, end: int) -> bool {
        &&& 0 <= index
        &&& index + 8 <= data.len()
        &&& v == spec_u64_from_le_bytes(data.subrange(index, index + 8)) as usize
        &&& end == index + 8
    }

    fn from_data(data: &Vec<u8>, index: usize) -> (res: (usize, usize)) {
        let n = data.len();
        proof {
            let (v0, e0) = choose|v0: usize, e0: int|
                usize::spec_decodes(data@, index as int, v0, e0);
            assert(index + 8 <= n);
        }
        let bytes = crate::des::sub("usize", data, index, 8);
        let v = u64_from_le_bytes(bytes.as_slice());
        (#[verifier::truncate] (v as usize), index + 8)
    }
}

impl DeserializerData for u8 {
    open spec fn spec_decodes(data: Seq<u8>, index: int, v: u8, end: int) -> bool {
        &&& 0 <= index
        &&& index + 1 <= data.len()
        &&& v == data[index]
        &&& end == index + 1
    }

    fn from_data(data: &Vec<u8>, index: usize) -> (res: (u8, usize)) {
        let n = data.len();
        proof {
            let (v0, e0) = choose|v0: u8, e0: int| u8::spec_decodes(data@, index as int, v0, e0);
            assert(index + 1 <= n);
        }
        (data[index], index + 1)
    }
}

impl DeserializerData for u16 {
    open spec fn spec_decodes(data: Seq<u8>, index: int, v: u16, end: int) -> bool {
        &&& 0 <= index
        &&& index + 2 <= data.len()
        &&& v == spec_u16_from_le_bytes(data.subrange(index, index + 2))
        &&& end == index + 2
    }

    fn from_data(data: &Vec<u8>, index: usize) -> (res: (u16, usize)) {
        let n = data.len();
        proof {
            let (v0, e0) = choose|v0: u16, e0: int| u16::spec_decodes(data@, index as int, v0, e0);
            assert(index + 2 <= n);
        }
        let bytes = crate::des::sub("u16", data, index, 2);
        let v = u16_from_le_bytes(bytes.as_slice());
        (v, index + 2)
    }
}

impl DeserializerData for u32 {
    open spec fn spec_decodes(data: Seq<u8>, index: int, v: u32, end: int) -> bool {
        &&& 0 <= index
        &&& index + 4 <= data.len()
        &&& v == spec_u32_from_le_bytes(data.subrange(index, index + 4))
        &&& end == index + 4
    }

    fn from_data(data: &Vec<u8>, index: usize) -> (res: (u32, usize)) {
        let n = data.len();
        proof {
            let (v0, e0) = choose|v0: u32, e0: int| u32::spec_decodes(data@, index as int, v0, e0);
            assert(index + 4 <= n);
        }
        let bytes = crate::des::sub("u32", data, index, 4);
        let v = u32_from_le_bytes(bytes.as_slice());
        (v, index + 4)
    }
}

impl DeserializerData for u64 {
    open spec fn spec_decodes(data: Seq<u8>, index: int, v: u64, end: int) -> bool {
        &&& 0 <= index
        &&& index + 8 <= data.len()
        &&& v == spec_u64_from_le_bytes(data.subrange(index, index + 8))
        &&& end == index + 8
    }

    fn from_data(data: &Vec<u8>, index: usize) -> (res: (u64, usize)) {
        let n = data.len();
        proof {
            let (v0, e0) = choose|v0: u64, e0: int| u64::spec_decodes(data@, index as int, v0, e0);
            assert(index + 8 <= n);
        }
        let bytes = crate::des::sub("u64", data, index, 8);
        let v = u64_from_le_bytes(bytes.as_slice());
        (v, index + 8)
    }
}

impl DeserializerData for u128 {
    open spec fn spec_decodes(data: Seq<u8>, index: int, v: u128, end: int) -> bool {
        &&& 0 <= index
        &&& index + 16 <= data.len()
        &&& v == spec_u128_from_le_bytes(data.subrange(index, index + 16))
        &&& end == index + 16
    }

    fn from_data(data: &Vec<u8>, index: usize) -> (res: (u128, usize)) {
        let n = data.len();
        proof {
            let (v0, e0) = choose|v0: u128, e0: int|
                u128::spec_decodes(data@, index as int, v0, e0);
            assert(index + 16 <= n);
        }
        let bytes = crate::des::sub("u128", data, index, 16);
        let v = u128_from_le_bytes(bytes.as_slice());
        (v, index + 16)
    }
}

impl DeserializerData for isize {
    open spec fn spec_decodes(data: Seq<u8>, index: int, v: isize, end: int) -> bool {
        &&& 0 <= index
        &&& index + 8 <= data.len()
        &&& v == (spec_u64_from_le_bytes(data.subrange(index, index + 8)) as i64) as isize
        &&& end == index + 8
    }

    fn from_data(data: &Vec<u8>, index: usize) -> (res: (isize, usize)) {
        let n = data.len();
        proof {
            let (v0, e0) = choose|v0: isize, e0: int|
                isize::spec_decodes(data@, index as int, v0, e0);
            assert(index + 8 <= n);
        }
        let bytes = crate::des::sub("isize", data, index, 8);
        let v = u64_from_le_bytes(bytes.as_slice());
        (#[verifier::truncate] ((#[verifier::truncate] (v as i64)) as isize), index + 8)
    }
}

impl DeserializerData for i8 {
    open spec fn spec_decodes(data: Seq<u8>, index: int, v: i8, end: int) -> bool {
        &&& 0 <= index
        &&& index + 1 <= data.len()
        &&& v == data[index] as i8
        &&& end == index + 1
    }

    fn from_data(data: &Vec<u8>, index: usize) -> (res: (i8, usize)) {
        let n = data.len();
        proof {
            let (v0, e0) = choose|v0: i8, e0: int| i8::spec_decodes(data@, index as int, v0, e0);
            assert(index + 1 <= n);
        }
        (#[verifier::truncate] (data[index] as i8), index + 1)
    }
}

impl DeserializerData for i16 {
    open spec fn spec_decodes(data: Seq<u8>, index: int, v: i16, end: int) -> bool {
        &&& 0 <= index
        &&& index + 2 <= data.len()
        &&& v == spec_u16_from_le_bytes(data.subrange(index, index + 2)) as i16
        &&& end == index + 2
    }

    fn from_data(data: &Vec<u8>, index: usize) -> (res: (i16, usize)) {
        let n = data.len();
        proof {
            let (v0, e0) = choose|v0: i16, e0: int| i16::spec_decodes(data@, index as int, v0, e0);
            assert(index + 2 <= n);
        }
        let bytes = crate::des::sub("i16", data, index, 2);
        let v = u16_from_le_bytes(bytes.as_slice());
        (#[verifier::truncate] (v as i16), index + 2)
    }
}

impl DeserializerData for i32 {
    open spec fn spec_decodes(data: Seq<u8>, index: int, v: i32, end: int) -> bool {
        &&& 0 <= index
        &&& index + 4 <= data.len()
        &&& v == spec_u32_from_le_bytes(data.subrange(index, index + 4)) as i32
        &&& end == index + 4
    }

    fn from_data(data: &Vec<u8>, index: usize) -> (res: (i32, usize)) {
        let n = data.len();
        proof {
            let (v0, e0) = choose|v0: i32, e0: int| i32::spec_decodes(data@, index as int, v0, e0);
            assert(index + 4 <= n);
        }
        let bytes = crate::des::sub("i32", data, index, 4);
        let v = u32_from_le_bytes(bytes.as_slice());
        (#[verifier::truncate] (v as i32), index + 4)
    }
}

impl DeserializerData for i64 {
    open spec fn spec_decodes(data: Seq<u8>, index: int, v: i64, end: int) -> bool {
        &&& 0 <= index
        &&& index + 8 <= data.len()
        &&& v == spec_u64_from_le_bytes(data.subrange(index, index + 8)) as i64
        &&& end == index + 8
    }

    fn from_data(data: &Vec<u8>, index: usize) -> (res: (i64, usize)) {
        let n = data.len();
        proof {
            let (v0, e0) = choose|v0: i64, e0: int| i64::spec_decodes(data@, index as int, v0, e0);
            assert(index + 8 <= n);
        }
        let bytes = crate::des::sub("i64", data, index, 8);
        let v = u64_from_le_bytes(bytes.as_slice());
        (#[verifier::truncate] (v as i64), index + 8)
    }
}

impl DeserializerData for i128 {
    open spec fn spec_decodes(data: Seq<u8>, index: int, v: i128, end: int) -> bool {
        &&& 0 <= index
        &&& index + 16 <= data.len()
        &&& v == spec_u128_from_le_bytes(data.subrange(index, index + 16)) as i128
        &&& end == index + 16
    }

    fn from_data(data: &Vec<u8>, index: usize) -> (res: (i128, usize)) {
        let n = data.len();
        proof {
            let (v0, e0) = choose|v0: i128, e0: int|
                i128::spec_decodes(data@, index as int, v0, e0);
            assert(index + 16 <= n);
        }
        let bytes = crate::des::sub("i128", data, index, 16);
        let v = u128_from_le_bytes(bytes.as_slice());
        (#[verifier::truncate] (v as i128), index + 16)
    }
}

impl DeserializerData for bool {
    open spec fn spec_decodes(data: Seq<u8>, index: int, v: bool, end: int) -> bool {
        &&& 0 <= index
        &&& index + 1 <= data.len()
        &&& v == (data[index] == 1u8)
        &&& end == index + 1
    }

    fn from_data(data: &Vec<u8>, index: usize) -> (res: (bool, usize)) {
        proof {
            let (v0, e0) = choose|v0: bool, e0: int|
                bool::spec_decodes(data@, index as int, v0, e0);
            assert(u8::spec_decodes(data@, index as int, data@[index as int], index + 1));
        }
        let (value, next) = u8::from_data(data, index);
        (value == 1, next)
    }
}

impl DeserializerData for char {
    open spec fn spec_decodes(data: Seq<u8>, index: int, v: char, end: int) -> bool {
        &&& 0 <= index
        &&& index + 1 <= data.len()
        &&& v == data[index] as char
        &&& end == index + 1
    }

    fn from_data(data: &Vec<u8>, index: usize) -> (res: (char, usize)) {
        proof {
            let (v0, e0) = choose|v0: char, e0: int|
                char::spec_decodes(data@, index as int, v0, e0);
            assert(u8::spec_decodes(data@, index as int, data@[index as int], index + 1));
        }
        let (bit, next) = u8::from_data(data, index);
        (bit as char, next)
    }
}

/// Relies on String::from_utf8: it returns Ok exactly on the byte
/// sequences that are valid UTF-8, and then yields the character
/// sequence those bytes encode.
#[verifier::external_body]
fn string_from_utf8(bytes: Vec<u8>) -> (res: Option<String>)
    ensures
        res is Some <==> valid_utf8(bytes@),
        res matches Some(s) ==> s@ == decode_utf8(bytes@),
{
    match String::from_utf8(bytes) {
        Ok(s) => Some(s),
        Err(_) => None,
    }
}

impl DeserializerData for String {
    open spec fn spec_decodes(data: Seq<u8>, index: int, v: String, end: int) -> bool {
        &&& 0 <= index
        &&& index + 8 <= data.len()
        &&& {
            let size = spec_u64_from_le_bytes(data.subrange(index, index + 8)) as int;
            &&& index + 8 + size <= data.len()
            &&& valid_utf8(data.subrange(index + 8, index + 8 + size))
            &&& v@ == decode_utf8(data.subrange(index + 8, index + 8 + size))
            &&& end == index + 8 + size
        }
    }

    fn from_data(data: &Vec<u8>, index: usize) -> (res: (String, usize)) {
        let n = data.len();
        proof {
            let (v0, e0) = choose|v0: String, e0: int|
                String::spec_decodes(data@, index as int, v0, e0);
            assert(usize::spec_decodes(
                data@,
                index as int,
                spec_u64_from_le_bytes(data@.subrange(index as int, index + 8)) as usize,
                index + 8,
            ));
        }
        let (size, idx) = usize::from_data(data, index);
        proof {
            let (v0, e0) = choose|v0: String, e0: int|
                String::spec_decodes(data@, index as int, v0, e0);
            assert(idx + size <= n);
        }
        let list = crate::des::sub("String", data, idx, size);
        let value = string_from_utf8(list);
        (value.unwrap(), idx + size)
    }
}

impl<T: DeserializerData> DeserializerData for Option<T> {
    open spec fn spec_decodes(data: Seq<u8>, index: int, v: Option<T>, end: int) -> bool {
        match v {
            Some(x) => {
                &&& 0 <= index
                &&& index + 1 <= data.len()
                &&& data[index] == 1u8
                &&& T::spec_decodes(data, index + 1, x, end)
            },
            None => {
                &&& 0 <= index
                &&& index + 1 <= data.len()
                &&& data[index] != 1u8
                &&& end == index + 1
            },
        }
    }

    fn from_data(data: &Vec<u8>, index: usize) -> (res: (Option<T>, usize)) {
        proof {
            let (v0, e0) = choose|v0: Option<T>, e0: int|
                Self::spec_decodes(data@, index as int, v0, e0);
            assert(u8::spec_decodes(data@, index as int, data@[index as int], index + 1));
        }
        let (code, next) = u8::from_data(data, index);
        if code == 1 {
            proof {
                let (v0, e0) = choose|v0: Option<T>, e0: int|
                    Self::spec_decodes(data@, index as int, v0, e0);
                match v0 {
                    Some(x0) => {
                        assert(T::spec_decodes(data@, next as int, x0, e0));
                    },
                    None => {
                        assert(false);
                    },
                }
            }
            let (value, end) = T::from_data(data, next);
            (Some(value), end)
        } else {
            (None, next)
        }
    }
}

/// Decoding a payload slice element by element, front to back, yields
/// exactly the elements of `es` and leaves nothing over.
pub open spec fn elems_decode<T: DeserializerData>(payload: Seq<u8>, es: Seq<T>) -> bool
    decreases es.len(),
{
    if es.len() == 0 {
        payload.len() == 0
    } else {
        exists|j: int|
            {
                &&& 0 < j <= payload.len()
                &&& #[trigger] T::spec_decodes(payload, 0, es[0], j)
                &&& elems_decode(payload.subrange(j, payload.len() as int), es.drop_first())
            }
    }
}

/// The wire relation every container shares: a word-sized byte count,
/// then that many bytes holding the elements' encodings back to back.
pub open spec fn container_decodes<T: DeserializerData>(
    data: Seq<u8>,
    index: int,
    es: Seq<T>,
    end: int,
) -> bool {
    &&& 0 <= index
    &&& index + 8 <= data.len()
    &&& {
        let size = spec_u64_from_le_bytes(data.subrange(index, index + 8)) as int;
        &&& index + 8 + size <= data.len()
        &&& end == index + 8 + size
        &&& elems_decode(data.subrange(index + 8, index + 8 + size), es)
    }
}

/// Folding step: a first element occupying `j` bytes, followed by a
/// decode of the rest, is a decode of the whole.
pub proof fn lemma_elems_decode_cons<T: DeserializerData>(payload: Seq<u8>, es: Seq<T>, j: int)
    requires
        es.len() > 0,
        0 < j <= payload.len(),
        T::spec_decodes(payload, 0, es[0], j),
        elems_decode(payload.subrange(j, payload.len() as int), es.drop_first()),
    ensures
        elems_decode(payload, es),
{
}

/// Unfolding step: a decode of a nonempty element list starts with its
/// first element, on some positive number of bytes.
pub proof fn lemma_elems_decode_uncons<T: DeserializerData>(payload: Seq<u8>, es: Seq<T>) -> (j:
    int)
    requires
        es.len() > 0,
        elems_decode(payload, es),
    ensures
        0 < j <= payload.len(),
        T::spec_decodes(payload, 0, es[0], j),
        elems_decode(payload.subrange(j, payload.len() as int), es.drop_first()),
{
    choose|j: int|
        {
            &&& 0 < j <= payload.len()
            &&& #[trigger] T::spec_decodes(payload, 0, es[0], j)
            &&& elems_decode(payload.subrange(j, payload.len() as int), es.drop_first())
        }
}

/// A payload with bytes left in it never decodes to the empty element
/// list: only an exhausted payload ends the element loop.
pub proof fn lemma_elems_decode_nil<T: DeserializerData>(payload: Seq<u8>, es: Seq<T>)
    requires
        elems_decode(payload, es),
        payload.len() > 0,
    ensures
        es.len() > 0,
{
}

/// Appending one more element's exact encoding on the right extends an
/// element-by-element decode by that element.
pub proof fn lemma_elems_decode_snoc<T: DeserializerData>(p: Seq<u8>, es: Seq<T>, c: Seq<u8>, e: T)
    requires
        codec_laws::<T>(),
        elems_decode(p, es),
        c.len() > 0,
        T::spec_decodes(c, 0, e, c.len() as int),
    ensures
        elems_decode(p + c, es.push(e)),
    decreases es.len(),
{
    reveal(decodes_in_window);
    if es.len() == 0 {
        assert(p + c =~= c);
        assert(es.push(e)[0] == e);
        assert((p + c).subrange(c.len() as int, (p + c).len() as int) =~= Seq::<u8>::empty());
        assert(es.push(e).drop_first() =~= Seq::<T>::empty());
        lemma_elems_decode_cons(p + c, es.push(e), c.len() as int);
    } else {
        let j = lemma_elems_decode_uncons(p, es);
        assert(decodes_in_window(p, 0, j, es[0]));
        assert((p + c).subrange(0, j) =~= p.subrange(0, j));
        assert(decodes_in_window(p + c, 0, j, es[0]));
        assert(T::spec_decodes(p + c, 0, es[0], j));
        lemma_elems_decode_snoc(p.subrange(j, p.len() as int), es.drop_first(), c, e);
        assert((p + c).subrange(j, (p + c).len() as int) =~= p.subrange(j, p.len() as int) + c);
        assert(es.push(e).drop_first() =~= es.drop_first().push(e));
        assert(es.push(e)[0] == es[0]);
        lemma_elems_decode_cons(p + c, es.push(e), j);
    }
}

/// Decode elements from `list` until it is exhausted.  `list` must be
/// exactly the payload region of some container encoding.
fn elems_from_data<T: DeserializerData>(list: Vec<u8>) -> (res: Vec<T>)
    requires
        codec_laws::<T>(),
        exists|es: Seq<T>| elems_decode(list@, es),
    ensures
        elems_decode(list@, res@),
{
    let ghost whole = list@;
    let ghost es0 = choose|es: Seq<T>| elems_decode(whole, es);
    let ghost mut rem: Seq<T> = es0;
    let ghost mut m: int = 0;
    let mut list = list;
    let mut res: Vec<T> = Vec::new();
    proof {
        assert(whole.subrange(0, 0) =~= Seq::<u8>::empty());
        assert(elems_decode(whole.subrange(0, 0), res@));
    }
    while list.len() > 0
        invariant
            codec_laws::<T>(),
            0 <= m <= whole.len(),
            list@ == whole.subrange(m, whole.len() as int),
            elems_decode(whole.subrange(0, m), res@),
            elems_decode(list@, rem),
        decreases list@.len(),
    {
        proof {
            lemma_elems_decode_nil(list@, rem);
            let j0 = lemma_elems_decode_uncons(list@, rem);
        }
        let (e, j) = T::from_data(&list, 0);
        proof {
            reveal(decodes_in_window);
            assert(0 < j as int <= list@.len());
            let j0 = lemma_elems_decode_uncons(list@, rem);
            assert(j as int == j0);
            assert(decodes_in_window(list@, 0, j as int, e));
            assert(T::spec_decodes(list@.subrange(0, j as int), 0, e, j as int));
            lemma_elems_decode_snoc(whole.subrange(0, m), res@, list@.subrange(0, j as int), e);
            assert(whole.subrange(0, m) + list@.subrange(0, j as int) =~= whole.subrange(
                0,
                m + j,
            ));
            assert(elems_decode(list@.subrange(j as int, list@.len() as int), rem.drop_first()));
        }
        res.push(e);
        let len_list = list.len();
        let tail = crate::des::sub("container", &list, j, len_list - j);
        proof {
            assert(tail@ =~= whole.subrange(m + j, whole.len() as int));
            rem = rem.drop_first();
            m = m + j as int;
        }
        list = tail;
    }
    proof {
        assert(m == whole.len());
        assert(whole.subrange(0, m) =~= whole);
    }
    res
}


/// Decode one length-prefixed element list: the word-sized byte count,
/// then elements until the payload is exhausted.  All container
/// decoders go through this one function.
fn container_from_data<T: DeserializerData>(data: &Vec<u8>, index: usize) -> (res: (Vec<T>, usize))
    requires
        codec_laws::<T>(),
        exists|es: Seq<T>, end: int| #[trigger] container_decodes(data@, index as int, es, end),
    ensures
        container_decodes(data@, index as int, res.0@, res.1 as int),
{
    let n = data.len();
    let ghost (es0, e0) = choose|es0: Seq<T>, e0: int|
        container_decodes(data@, index as int, es0, e0);
    proof {
        assert(usize::spec_decodes(
            data@,
            index as int,
            spec_u64_from_le_bytes(data@.subrange(index as int, index + 8)) as usize,
            index + 8,
        ));
    }
    let (size, idx) = usize::from_data(data, index);
    proof {
        assert(idx + size <= n);
        assert(size as int == spec_u64_from_le_bytes(
            data@.subrange(index as int, index + 8),
        ) as int);
    }
    let list = crate::des::sub("container", data, idx, size);
    proof {
        assert(elems_decode(list@, es0));
    }
    let res: Vec<T> = elems_from_data(list);
    (res, idx + size)
}

impl<T: DeserializerData> DeserializerData for Vec<T> {
    open spec fn spec_decodes(data: Seq<u8>, index: int, v: Vec<T>, end: int) -> bool {
        codec_laws::<T>() && container_decodes(data, index, v@, end)
    }

    fn from_data(data: &Vec<u8>, index: usize) -> (res: (Vec<T>, usize)) {
        let ghost (v0, e0) = choose|v0: Vec<T>, e0: int|
            Vec::<T>::spec_decodes(data@, index as int, v0, e0);
        proof {
            assert(container_decodes(data@, index as int, v0@, e0));
        }
        container_from_data(data, index)
    }
}

impl<T: DeserializerData> DeserializerData for std::collections::VecDeque<T> {
    open spec fn spec_decodes(
        data: Seq<u8>,
        index: int,
        v: std::collections::VecDeque<T>,
        end: int,
    ) -> bool {
        codec_laws::<T>() && container_decodes(data, index, v@, end)
    }

    fn from_data(data: &Vec<u8>, index: usize) -> (res: (std::collections::VecDeque<T>, usize)) {
        let ghost (v0, e0) = choose|v0: std::collections::VecDeque<T>, e0: int|
            Self::spec_decodes(data@, index as int, v0, e0);
        proof {
            assert(container_decodes(data@, index as int, v0@, e0));
        }
        let (mut elems, next) = container_from_data::<T>(data, index);
        let mut res: std::collections::VecDeque<T> = std::collections::VecDeque::new();
        let ghost all = elems@;
        while elems.len() > 0
            invariant
                res@ + elems@ == all,
            decreases elems@.len(),
        {
            let e = elems.remove(0);
            res.push_back(e);
            proof {
                assert(res@ + elems@ =~= all);
            }
        }
        proof {
            assert(res@ =~= all);
        }
        (res, next)
    }
}


/// The two halves of a key-value entry in order: the key's bytes, then
/// the value's, with `mid` marking the boundary between them.
pub open spec fn pair_decodes_at<K: DeserializerData, V: DeserializerData>(
    data: Seq<u8>,
    index: int,
    kv: (K, V),
    mid: int,
    end: int,
) -> bool {
    &&& K::spec_decodes(data, index, kv.0, mid)
    &&& V::spec_decodes(data, mid, kv.1, end)
}

impl<K: DeserializerData, V: DeserializerData> DeserializerData for (K, V) {
    open spec fn spec_decodes(data: Seq<u8>, index: int, kv: (K, V), end: int) -> bool {
        &&& codec_laws::<K>()
        &&& codec_laws::<V>()
        &&& exists|mid: int| #[trigger] pair_decodes_at(data, index, kv, mid, end)
    }

    fn from_data(data: &Vec<u8>, index: usize) -> (res: ((K, V), usize)) {
        let ghost (kv0, e0) = choose|kv0: (K, V), e0: int|
            Self::spec_decodes(data@, index as int, kv0, e0);
        let ghost mid0 = choose|mid0: int| pair_decodes_at(data@, index as int, kv0, mid0, e0);
        proof {
            assert(K::spec_decodes(data@, index as int, kv0.0, mid0));
        }
        let (key, mid) = K::from_data(data, index);
        proof {
            assert(mid as int == mid0);
            assert(V::spec_decodes(data@, mid as int, kv0.1, e0));
        }
        let (value, end) = V::from_data(data, mid);
        proof {
            assert(pair_decodes_at(data@, index as int, (key, value), mid as int, end as int));
        }
        ((key, value), end)
    }
}

/// The map built by inserting `es`'s entries in order: a later entry
/// with the same key overwrites an earlier one.
pub open spec fn map_of_pairs<K, V>(es: Seq<(K, V)>) -> Map<K, V>
    decreases es.len(),
{
    if es.len() == 0 {
        Map::<K, V>::empty()
    } else {
        map_of_pairs(es.drop_last()).insert(es.last().0, es.last().1)
    }
}

/// The set built by inserting `es`'s elements in order; a duplicate
/// changes nothing.
pub open spec fn set_of_elems<T>(es: Seq<T>) -> Set<T>
    decreases es.len(),
{
    if es.len() == 0 {
        Set::<T>::empty()
    } else {
        set_of_elems(es.drop_last()).insert(es.last())
    }
}

// The set and map codecs are decode-only in this library.  Encoding
// them iterates the container: a hashed container's iteration order is
// not a function of its contents, so no exact `to_data` contract can be
// true of it, and the verifier's specifications for ordered iteration
// hold only under ordering assumptions that `to_data`'s unconditional
// contract cannot make.  Unverified encoders with the original
// behavior stand beside the library.
impl<K: DeserializerData + Eq + Hash + Ord, V: DeserializerData> DeserializerData for BTreeMap<
    K,
    V,
> {
    open spec fn spec_decodes(data: Seq<u8>, index: int, m: BTreeMap<K, V>, end: int) -> bool {
        &&& codec_laws::<(K, V)>()
        &&& obeys_cmp::<K>()
        &&& exists|es: Seq<(K, V)>|
            #[trigger] container_decodes(data, index, es, end) && m@ == map_of_pairs(es)
    }

    fn from_data(data: &Vec<u8>, index: usize) -> (res: (BTreeMap<K, V>, usize)) {
        let ghost (m0, e0) = choose|m0: BTreeMap<K, V>, e0: int|
            Self::spec_decodes(data@, index as int, m0, e0);
        let ghost es0 = choose|es: Seq<(K, V)>|
            #[trigger] container_decodes(data@, index as int, es, e0) && m0@ == map_of_pairs(es);
        proof {
            assert(container_decodes(data@, index as int, es0, e0));
        }
        let (mut pairs, next) = container_from_data::<(K, V)>(data, index);
        let ghost all = pairs@;
        let mut res: BTreeMap<K, V> = BTreeMap::new();
        let ghost mut k: int = 0;
        while pairs.len() > 0
            invariant
                obeys_cmp::<K>(),
                0 <= k <= all.len(),
                pairs@ == all.skip(k),
                res@ == map_of_pairs(all.take(k)),
            decreases pairs@.len(),
        {
            let kv = pairs.remove(0);
            proof {
                assert(all.skip(k)[0] == all[k]);
            }
            res.insert(kv.0, kv.1);
            proof {
                assert(all.take(k + 1).drop_last() =~= all.take(k));
                assert(all.take(k + 1).last() == all[k]);
                assert(pairs@ =~= all.skip(k + 1));
                k = k + 1;
            }
        }
        proof {
            assert(all.take(all.len() as int) =~= all);
        }
        (res, next)
    }
}

impl<K: DeserializerData + Eq + Hash, V: DeserializerData> DeserializerData for HashMap<K, V> {
    open spec fn spec_decodes(data: Seq<u8>, index: int, m: HashMap<K, V>, end: int) -> bool {
        &&& codec_laws::<(K, V)>()
        &&& obeys_key_model::<K>()
        &&& builds_valid_hashers::<std::collections::hash_map::RandomState>()
        &&& exists|es: Seq<(K, V)>|
            #[trigger] container_decodes(data, index, es, end) && m@ == map_of_pairs(es)
    }

    fn from_data(data: &Vec<u8>, index: usize) -> (res: (HashMap<K, V>, usize)) {
        let ghost (m0, e0) = choose|m0: HashMap<K, V>, e0: int|
            Self::spec_decodes(data@, index as int, m0, e0);
        let ghost es0 = choose|es: Seq<(K, V)>|
            #[trigger] container_decodes(data@, index as int, es, e0) && m0@ == map_of_pairs(es);
        proof {
            assert(container_decodes(data@, index as int, es0, e0));
        }
        let (mut pairs, next) = container_from_data::<(K, V)>(data, index);
        let ghost all = pairs@;
        let mut res: HashMap<K, V> = HashMap::new();
        let ghost mut k: int = 0;
        while pairs.len() > 0
            invariant
                obeys_key_model::<K>(),
                builds_valid_hashers::<std::collections::hash_map::RandomState>(),
                0 <= k <= all.len(),
                pairs@ == all.skip(k),
                res@ == map_of_pairs(all.take(k)),
            decreases pairs@.len(),
        {
            let kv = pairs.remove(0);
            proof {
                assert(all.skip(k)[0] == all[k]);
            }
            res.insert(kv.0, kv.1);
            proof {
                assert(all.take(k + 1).drop_last() =~= all.take(k));
                assert(all.take(k + 1).last() == all[k]);
                assert(pairs@ =~= all.skip(k + 1));
                k = k + 1;
            }
        }
        proof {
            assert(all.take(all.len() as int) =~= all);
        }
        (res, next)
    }
}

impl<T: DeserializerData + Eq + Hash + Ord> DeserializerData for BTreeSet<T> {
    open spec fn spec_decodes(data: Seq<u8>, index: int, s: BTreeSet<T>, end: int) -> bool {
        &&& codec_laws::<T>()
        &&& obeys_cmp::<T>()
        &&& exists|es: Seq<T>|
            #[trigger] container_decodes(data, index, es, end) && s@ == set_of_elems(es)
    }

    fn from_data(data: &Vec<u8>, index: usize) -> (res: (BTreeSet<T>, usize)) {
        let ghost (s0, e0) = choose|s0: BTreeSet<T>, e0: int|
            Self::spec_decodes(data@, index as int, s0, e0);
        let ghost es0 = choose|es: Seq<T>|
            #[trigger] container_decodes(data@, index as int, es, e0) && s0@ == set_of_elems(es);
        proof {
            assert(container_decodes(data@, index as int, es0, e0));
        }
        let (mut elems, next) = container_from_data::<T>(data, index);
        let ghost all = elems@;
        let mut res: BTreeSet<T> = BTreeSet::new();
        let ghost mut k: int = 0;
        while elems.len() > 0
            invariant
                obeys_cmp::<T>(),
                0 <= k <= all.len(),
                elems@ == all.skip(k),
                res@ == set_of_elems(all.take(k)),
            decreases elems@.len(),
        {
            let e = elems.remove(0);
            proof {
                assert(all.skip(k)[0] == all[k]);
            }
            res.insert(e);
            proof {
                assert(all.take(k + 1).drop_last() =~= all.take(k));
                assert(all.take(k + 1).last() == all[k]);
                assert(elems@ =~= all.skip(k + 1));
                k = k + 1;
            }
        }
        proof {
            assert(all.take(all.len() as int) =~= all);
        }
        (res, next)
    }
}

impl<T: DeserializerData + Eq + Hash> DeserializerData for HashSet<T> {
    open spec fn spec_decodes(data: Seq<u8>, index: int, s: HashSet<T>, end: int) -> bool {
        &&& codec_laws::<T>()
        &&& obeys_key_model::<T>()
        &&& builds_valid_hashers::<std::collections::hash_map::RandomState>()
        &&& exists|es: Seq<T>|
            #[trigger] container_decodes(data, index, es, end) && s@ == set_of_elems(es)
    }

    fn from_data(data: &Vec<u8>, index: usize) -> (res: (HashSet<T>, usize)) {
        let ghost (s0, e0) = choose|s0: HashSet<T>, e0: int|
            Self::spec_decodes(data@, index as int, s0, e0);
        let ghost es0 = choose|es: Seq<T>|
            #[trigger] container_decodes(data@, index as int, es, e0) && s0@ == set_of_elems(es);
        proof {
            assert(container_decodes(data@, index as int, es0, e0));
        }
        let (mut elems, next) = container_from_data::<T>(data, index);
        let ghost all = elems@;
        let mut res: HashSet<T> = HashSet::new();
        let ghost mut k: int = 0;
        while elems.len() > 0
            invariant
                obeys_key_model::<T>(),
                builds_valid_hashers::<std::collections::hash_map::RandomState>(),
                0 <= k <= all.len(),
                elems@ == all.skip(k),
                res@ == set_of_elems(all.take(k)),
            decreases elems@.len(),
        {
            let e = elems.remove(0);
            proof {
                assert(all.skip(k)[0] == all[k]);
            }
            res.insert(e);
            proof {
                assert(all.take(k + 1).drop_last() =~= all.take(k));
                assert(all.take(k + 1).last() == all[k]);
                assert(elems@ =~= all.skip(k + 1));
                k = k + 1;
            }
        }
        proof {
            assert(all.take(all.len() as int) =~= all);
        }
        (res, next)
    }
}

} // verus!
