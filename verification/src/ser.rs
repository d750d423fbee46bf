//! The encoding half of the codec: values to bytes.

use vstd::bytes::*;
use vstd::prelude::*;
use vstd::slice::slice_to_vec;
use vstd::utf8::encode_utf8;

verus! {

/// # SerializerData
///
/// Trait for converting a value into its wire bytes.
///
/// The library implements the trait for:
/// - u8, u16, u32, u64, u128, usize
/// - i8, i16, i32, i64, i128, isize
/// - char
/// - bool
/// - String
/// - Option<T>
/// - Vec<T>, VecDeque<T>
///
/// A composite type implemented outside this library only provides
/// `to_data`; its wire bytes are then unspecified here, and nothing is
/// proved about values that contain it.  The implementations in this
/// library all say exactly which bytes they produce.
pub trait SerializerData {
    /// The byte sequence that `to_data` returns for this value.
    open spec fn spec_data(&self) -> Seq<u8> {
        arbitrary()
    }

    /// Convert the value into bytes (Vec<u8>).
    fn to_data(&self) -> (res: Vec<u8>)
        ensures
            res@ == self.spec_data(),
    ;
}

/// The exact byte sequence that encoding a sequence of elements
/// produces: the concatenation of the elements' own encodings, in
/// order, with no separators.
pub open spec fn elems_data<T: SerializerData>(es: Seq<T>) -> Seq<u8>
    decreases es.len(),
{
    if es.len() == 0 {
        Seq::empty()
    } else {
        es[0].spec_data() + elems_data(es.drop_first())
    }
}

/// Appending one element on the right appends its encoding on the right.
pub proof fn lemma_elems_data_push<T: SerializerData>(es: Seq<T>, e: T)
    ensures
        elems_data(es.push(e)) == elems_data(es) + e.spec_data(),
    decreases es.len(),
{
    if es.len() == 0 {
        assert(es.push(e).drop_first() =~= Seq::<T>::empty());
        assert(es.push(e)[0] == e);
        assert(elems_data(es.push(e)) == e.spec_data() + elems_data(Seq::<T>::empty()));
        assert(elems_data(es.push(e)) =~= elems_data(es) + e.spec_data());
    } else {
        assert(es.push(e).drop_first() =~= es.drop_first().push(e));
        lemma_elems_data_push(es.drop_first(), e);
        assert(elems_data(es.push(e)) =~= elems_data(es) + e.spec_data());
    }
}

impl SerializerData for usize {
    open spec fn spec_data(&self) -> Seq<u8> {
        spec_u64_to_le_bytes(*self as u64)
    }

    fn to_data(&self) -> (res: Vec<u8>) {
        u64_to_le_bytes(*self as u64)
    }
}

impl SerializerData for u8 {
    open spec fn spec_data(&self) -> Seq<u8> {
        seq![*self]
    }

    fn to_data(&self) -> (res: Vec<u8>) {
        let mut res: Vec<u8> = Vec::new();
        res.push(*self);
        proof {
            assert(res@ =~= seq![*self]);
        }
        res
    }
}

impl SerializerData for u16 {
    open spec fn spec_data(&self) -> Seq<u8> {
        spec_u16_to_le_bytes(*self)
    }

    fn to_data(&self) -> (res: Vec<u8>) {
        u16_to_le_bytes(*self)
    }
}

impl SerializerData for u32 {
    open spec fn spec_data(&self) -> Seq<u8> {
        spec_u32_to_le_bytes(*self)
    }

    fn to_data(&self) -> (res: Vec<u8>) {
        u32_to_le_bytes(*self)
    }
}

impl SerializerData for u64 {
    open spec fn spec_data(&self) -> Seq<u8> {
        spec_u64_to_le_bytes(*self)
    }

    fn to_data(&self) -> (res: Vec<u8>) {
        u64_to_le_bytes(*self)
    }
}

impl SerializerData for u128 {
    open spec fn spec_data(&self) -> Seq<u8> {
        spec_u128_to_le_bytes(*self)
    }

    fn to_data(&self) -> (res: Vec<u8>) {
        u128_to_le_bytes(*self)
    }
}

impl SerializerData for isize {
    open spec fn spec_data(&self) -> Seq<u8> {
        spec_u64_to_le_bytes((*self as i64) as u64)
    }

    fn to_data(&self) -> (res: Vec<u8>) {
        u64_to_le_bytes(#[verifier::truncate] ((*self as i64) as u64))
    }
}

impl SerializerData for i8 {
    open spec fn spec_data(&self) -> Seq<u8> {
        seq![*self as u8]
    }

    fn to_data(&self) -> (res: Vec<u8>) {
        let mut res: Vec<u8> = Vec::new();
        res.push(#[verifier::truncate] (*self as u8));
        proof {
            assert(res@ =~= seq![*self as u8]);
        }
        res
    }
}

impl SerializerData for i16 {
    open spec fn spec_data(&self) -> Seq<u8> {
        spec_u16_to_le_bytes(*self as u16)
    }

    fn to_data(&self) -> (res: Vec<u8>) {
        u16_to_le_bytes(#[verifier::truncate] (*self as u16))
    }
}

impl SerializerData for i32 {
    open spec fn spec_data(&self) -> Seq<u8> {
        spec_u32_to_le_bytes(*self as u32)
    }

    fn to_data(&self) -> (res: Vec<u8>) {
        u32_to_le_bytes(#[verifier::truncate] (*self as u32))
    }
}

impl SerializerData for i64 {
    open spec fn spec_data(&self) -> Seq<u8> {
        spec_u64_to_le_bytes(*self as u64)
    }

    fn to_data(&self) -> (res: Vec<u8>) {
        u64_to_le_bytes(#[verifier::truncate] (*self as u64))
    }
}

impl SerializerData for i128 {
    open spec fn spec_data(&self) -> Seq<u8> {
        spec_u128_to_le_bytes(*self as u128)
    }

    fn to_data(&self) -> (res: Vec<u8>) {
        u128_to_le_bytes(#[verifier::truncate] (*self as u128))
    }
}

impl SerializerData for bool {
    open spec fn spec_data(&self) -> Seq<u8> {
        seq![if *self { 1u8 } else { 0u8 }]
    }

    fn to_data(&self) -> (res: Vec<u8>) {
        let value: u8 = if *self { 1 } else { 0 };
        let mut res: Vec<u8> = Vec::new();
        res.push(value);
        proof {
            assert(res@ =~= seq![if *self { 1u8 } else { 0u8 }]);
        }
        res
    }
}

impl SerializerData for String {
    open spec fn spec_data(&self) -> Seq<u8> {
        spec_u64_to_le_bytes(encode_utf8(self@).len() as u64) + encode_utf8(self@)
    }

    fn to_data(&self) -> (res: Vec<u8>) {
        let bytes = self.as_str().as_bytes();
        let len = bytes.len();
        let mut res = u64_to_le_bytes(len as u64);
        let mut payload = slice_to_vec(bytes);
        res.append(&mut payload);
        res
    }
}

impl<T: SerializerData> SerializerData for Option<T> {
    open spec fn spec_data(&self) -> Seq<u8> {
        match self {
            Some(value) => seq![1u8] + value.spec_data(),
            None => seq![0u8],
        }
    }

    fn to_data(&self) -> (res: Vec<u8>) {
        let mut res: Vec<u8> = Vec::new();
        match self {
            Some(value) => {
                res.push(1u8);
                let mut d = value.to_data();
                res.append(&mut d);
                proof {
                    assert(res@ =~= seq![1u8] + value.spec_data());
                }
            },
            None => {
                res.push(0u8);
                proof {
                    assert(res@ =~= seq![0u8]);
                }
            },
        }
        res
    }
}

impl<T: SerializerData> SerializerData for Vec<T> {
    open spec fn spec_data(&self) -> Seq<u8> {
        spec_u64_to_le_bytes(elems_data(self@).len() as u64) + elems_data(self@)
    }

    fn to_data(&self) -> (res: Vec<u8>) {
        let mut payload: Vec<u8> = Vec::new();
        let mut i: usize = 0;
        while i < self.len()
            invariant
                i <= self@.len(),
                payload@ == elems_data(self@.take(i as int)),
            decreases self@.len() - i,
        {
            let mut d = self[i].to_data();
            proof {
                lemma_elems_data_push(self@.take(i as int), self@[i as int]);
                assert(self@.take(i as int + 1) =~= self@.take(i as int).push(self@[i as int]));
            }
            payload.append(&mut d);
            i += 1;
        }
        proof {
            assert(self@.take(self@.len() as int) =~= self@);
        }
        let len = payload.len();
        let mut res = u64_to_le_bytes(len as u64);
        res.append(&mut payload);
        res
    }
}

impl<T: SerializerData> SerializerData for std::collections::VecDeque<T> {
    open spec fn spec_data(&self) -> Seq<u8> {
        spec_u64_to_le_bytes(elems_data(self@).len() as u64) + elems_data(self@)
    }

    fn to_data(&self) -> (res: Vec<u8>) {
        let mut payload: Vec<u8> = Vec::new();
        let mut i: usize = 0;
        while i < self.len()
            invariant
                i <= self@.len(),
                payload@ == elems_data(self@.take(i as int)),
            decreases self@.len() - i,
        {
            let mut d = self[i].to_data();
            proof {
                lemma_elems_data_push(self@.take(i as int), self@[i as int]);
                assert(self@.take(i as int + 1) =~= self@.take(i as int).push(self@[i as int]));
            }
            payload.append(&mut d);
            i += 1;
        }
        proof {
            assert(self@.take(self@.len() as int) =~= self@);
        }
        let len = payload.len();
        let mut res = u64_to_le_bytes(len as u64);
        res.append(&mut payload);
        res
    }
}

impl SerializerData for char {
    open spec fn spec_data(&self) -> Seq<u8> {
        seq![*self as u8]
    }

    fn to_data(&self) -> (res: Vec<u8>) {
        let bit = #[verifier::truncate] (*self as u8);
        let mut res: Vec<u8> = Vec::new();
        res.push(bit);
        proof {
            assert(res@ =~= seq![*self as u8]);
        }
        res
    }
}

} // verus!
