//! The laws that relate the two halves of the codec: every covered
//! value decodes back from its own encoding, wherever it stands in a
//! buffer; the length prefix of a variable-size encoding counts its
//! payload bytes exactly; values packed back to back decode in
//! sequence; and an empty container costs exactly its length prefix.

use crate::des::{
    codec_laws, container_decodes, decodes_in_window, elems_decode, lemma_elems_decode_cons,
    lemma_elems_decode_uncons, lemma_subwindow, map_of_pairs, pair_decodes_at, set_of_elems,
    DeserializerData,
};
use std::collections::{BTreeMap, BTreeSet, HashMap, HashSet};
use std::hash::Hash;
use crate::ser::{elems_data, SerializerData};
use vstd::bytes::*;
use vstd::prelude::*;
use vstd::utf8::{encode_utf8, encode_utf8_decode_utf8, encode_utf8_valid_utf8};

verus! {

/// Wherever the bytes of `v`'s encoding sit in a buffer, decoding the
/// buffer there reconstructs `v` and consumes exactly those bytes.
/// (Encodings longer than the length-prefix field can never arise from
/// executable code and are excluded.)
pub open spec fn decodes_from_own_bytes<T: SerializerData + DeserializerData>(
    v: T,
    data: Seq<u8>,
    index: int,
) -> bool {
    (0 <= index && index + v.spec_data().len() <= data.len() && v.spec_data().len() <= u64::MAX
        && data.subrange(index, index + v.spec_data().len() as int) == v.spec_data())
        ==> T::spec_decodes(data, index, v, index + v.spec_data().len() as int)
}

/// The round-trip law for a covered type: every value decodes back from
/// its own encoding, wherever that encoding stands in a buffer.
pub open spec fn round_trips<T: SerializerData + DeserializerData>() -> bool {
    forall|v: T, data: Seq<u8>, index: int| #[trigger] decodes_from_own_bytes(v, data, index)
}

pub proof fn lemma_round_trips_u8()
    ensures
        round_trips::<u8>(),
{
    assert forall|v: u8, data: Seq<u8>, index: int| #[trigger] decodes_from_own_bytes(
        v,
        data,
        index,
    ) by {
        if 0 <= index && index + v.spec_data().len() <= data.len() && v.spec_data().len()
            <= u64::MAX && data.subrange(index, index + v.spec_data().len() as int)
            == v.spec_data() {
            assert(data[index] == v.spec_data()[0]);
        }
    }
}

pub proof fn lemma_round_trips_u16()
    ensures
        round_trips::<u16>(),
{
    assert forall|v: u16, data: Seq<u8>, index: int| #[trigger] decodes_from_own_bytes(
        v,
        data,
        index,
    ) by {
        if 0 <= index && index + v.spec_data().len() <= data.len() && v.spec_data().len()
            <= u64::MAX && data.subrange(index, index + v.spec_data().len() as int)
            == v.spec_data() {
            lemma_auto_spec_u16_to_from_le_bytes();
            assert(data.subrange(index, index + 2) == spec_u16_to_le_bytes(v));
        }
    }
}

pub proof fn lemma_round_trips_u32()
    ensures
        round_trips::<u32>(),
{
    assert forall|v: u32, data: Seq<u8>, index: int| #[trigger] decodes_from_own_bytes(
        v,
        data,
        index,
    ) by {
        if 0 <= index && index + v.spec_data().len() <= data.len() && v.spec_data().len()
            <= u64::MAX && data.subrange(index, index + v.spec_data().len() as int)
            == v.spec_data() {
            lemma_auto_spec_u32_to_from_le_bytes();
            assert(data.subrange(index, index + 4) == spec_u32_to_le_bytes(v));
        }
    }
}

pub proof fn lemma_round_trips_u64()
    ensures
        round_trips::<u64>(),
{
    assert forall|v: u64, data: Seq<u8>, index: int| #[trigger] decodes_from_own_bytes(
        v,
        data,
        index,
    ) by {
        if 0 <= index && index + v.spec_data().len() <= data.len() && v.spec_data().len()
            <= u64::MAX && data.subrange(index, index + v.spec_data().len() as int)
            == v.spec_data() {
            lemma_auto_spec_u64_to_from_le_bytes();
            assert(data.subrange(index, index + 8) == spec_u64_to_le_bytes(v));
        }
    }
}

pub proof fn lemma_round_trips_u128()
    ensures
        round_trips::<u128>(),
{
    assert forall|v: u128, data: Seq<u8>, index: int| #[trigger] decodes_from_own_bytes(
        v,
        data,
        index,
    ) by {
        if 0 <= index && index + v.spec_data().len() <= data.len() && v.spec_data().len()
            <= u64::MAX && data.subrange(index, index + v.spec_data().len() as int)
            == v.spec_data() {
            lemma_auto_spec_u128_to_from_le_bytes();
            assert(data.subrange(index, index + 16) == spec_u128_to_le_bytes(v));
        }
    }
}

pub proof fn lemma_round_trips_usize()
    ensures
        round_trips::<usize>(),
{
    assert forall|v: usize, data: Seq<u8>, index: int| #[trigger] decodes_from_own_bytes(
        v,
        data,
        index,
    ) by {
        if 0 <= index && index + v.spec_data().len() <= data.len() && v.spec_data().len()
            <= u64::MAX && data.subrange(index, index + v.spec_data().len() as int)
            == v.spec_data() {
            lemma_auto_spec_u64_to_from_le_bytes();
            assert(data.subrange(index, index + 8) == spec_u64_to_le_bytes(v as u64));
            assert(spec_u64_from_le_bytes(data.subrange(index, index + 8)) == v as u64);
        }
    }
}

pub proof fn lemma_round_trips_i8()
    ensures
        round_trips::<i8>(),
{
    assert forall|v: i8, data: Seq<u8>, index: int| #[trigger] decodes_from_own_bytes(
        v,
        data,
        index,
    ) by {
        if 0 <= index && index + v.spec_data().len() <= data.len() && v.spec_data().len()
            <= u64::MAX && data.subrange(index, index + v.spec_data().len() as int)
            == v.spec_data() {
            assert(data[index] == v.spec_data()[0]);
            assert(((v as u8) as i8) == v) by (bit_vector);
        }
    }
}

pub proof fn lemma_round_trips_i16()
    ensures
        round_trips::<i16>(),
{
    assert forall|v: i16, data: Seq<u8>, index: int| #[trigger] decodes_from_own_bytes(
        v,
        data,
        index,
    ) by {
        if 0 <= index && index + v.spec_data().len() <= data.len() && v.spec_data().len()
            <= u64::MAX && data.subrange(index, index + v.spec_data().len() as int)
            == v.spec_data() {
            lemma_auto_spec_u16_to_from_le_bytes();
            assert(data.subrange(index, index + 2) == spec_u16_to_le_bytes(v as u16));
            assert(((v as u16) as i16) == v) by (bit_vector);
        }
    }
}

pub proof fn lemma_round_trips_i32()
    ensures
        round_trips::<i32>(),
{
    assert forall|v: i32, data: Seq<u8>, index: int| #[trigger] decodes_from_own_bytes(
        v,
        data,
        index,
    ) by {
        if 0 <= index && index + v.spec_data().len() <= data.len() && v.spec_data().len()
            <= u64::MAX && data.subrange(index, index + v.spec_data().len() as int)
            == v.spec_data() {
            lemma_auto_spec_u32_to_from_le_bytes();
            assert(data.subrange(index, index + 4) == spec_u32_to_le_bytes(v as u32));
            assert(((v as u32) as i32) == v) by (bit_vector);
        }
    }
}

pub proof fn lemma_round_trips_i64()
    ensures
        round_trips::<i64>(),
{
    assert forall|v: i64, data: Seq<u8>, index: int| #[trigger] decodes_from_own_bytes(
        v,
        data,
        index,
    ) by {
        if 0 <= index && index + v.spec_data().len() <= data.len() && v.spec_data().len()
            <= u64::MAX && data.subrange(index, index + v.spec_data().len() as int)
            == v.spec_data() {
            lemma_auto_spec_u64_to_from_le_bytes();
            assert(data.subrange(index, index + 8) == spec_u64_to_le_bytes(v as u64));
            assert(((v as u64) as i64) == v) by (bit_vector);
        }
    }
}

pub proof fn lemma_round_trips_i128()
    ensures
        round_trips::<i128>(),
{
    assert forall|v: i128, data: Seq<u8>, index: int| #[trigger] decodes_from_own_bytes(
        v,
        data,
        index,
    ) by {
        if 0 <= index && index + v.spec_data().len() <= data.len() && v.spec_data().len()
            <= u64::MAX && data.subrange(index, index + v.spec_data().len() as int)
            == v.spec_data() {
            lemma_auto_spec_u128_to_from_le_bytes();
            assert(data.subrange(index, index + 16) == spec_u128_to_le_bytes(v as u128));
            assert(((v as u128) as i128) == v) by (bit_vector);
        }
    }
}

pub proof fn lemma_round_trips_isize()
    ensures
        round_trips::<isize>(),
{
    assert forall|v: isize, data: Seq<u8>, index: int| #[trigger] decodes_from_own_bytes(
        v,
        data,
        index,
    ) by {
        if 0 <= index && index + v.spec_data().len() <= data.len() && v.spec_data().len()
            <= u64::MAX && data.subrange(index, index + v.spec_data().len() as int)
            == v.spec_data() {
            lemma_auto_spec_u64_to_from_le_bytes();
            let w = v as i64;
            assert(data.subrange(index, index + 8) == spec_u64_to_le_bytes(w as u64));
            assert(((w as u64) as i64) == w) by (bit_vector);
        }
    }
}

pub proof fn lemma_round_trips_bool()
    ensures
        round_trips::<bool>(),
{
    assert forall|v: bool, data: Seq<u8>, index: int| #[trigger] decodes_from_own_bytes(
        v,
        data,
        index,
    ) by {
        if 0 <= index && index + v.spec_data().len() <= data.len() && v.spec_data().len()
            <= u64::MAX && data.subrange(index, index + v.spec_data().len() as int)
            == v.spec_data() {
            assert(data[index] == v.spec_data()[0]);
        }
    }
}

pub proof fn lemma_round_trips_string()
    ensures
        round_trips::<String>(),
{
    assert forall|v: String, data: Seq<u8>, index: int| #[trigger] decodes_from_own_bytes(
        v,
        data,
        index,
    ) by {
        if 0 <= index && index + v.spec_data().len() <= data.len() && v.spec_data().len()
            <= u64::MAX && data.subrange(index, index + v.spec_data().len() as int)
            == v.spec_data() {
            let utf8 = encode_utf8(v@);
            let enc = v.spec_data();
            let m = enc.len() as int;
            lemma_auto_spec_u64_to_from_le_bytes();
            assert(m == 8 + utf8.len());
            assert(enc.subrange(0, m) =~= enc);
            lemma_subwindow(enc, 0, data, index, m, 0, 8);
            lemma_subwindow(enc, 0, data, index, m, 8, m);
            assert(enc.subrange(0, 8) =~= spec_u64_to_le_bytes(utf8.len() as u64));
            assert(enc.subrange(8, m) =~= utf8);
            lemma_auto_spec_u64_to_from_le_bytes();
            assert(spec_u64_from_le_bytes(data.subrange(index, index + 8)) == utf8.len() as u64);
            encode_utf8_valid_utf8(v@);
            encode_utf8_decode_utf8(v@);
        }
    }
}

pub proof fn lemma_round_trips_option<T: SerializerData + DeserializerData>()
    requires
        round_trips::<T>(),
    ensures
        round_trips::<Option<T>>(),
{
    assert forall|v: Option<T>, data: Seq<u8>, index: int| #[trigger] decodes_from_own_bytes(
        v,
        data,
        index,
    ) by {
        if 0 <= index && index + v.spec_data().len() <= data.len() && v.spec_data().len()
            <= u64::MAX && data.subrange(index, index + v.spec_data().len() as int)
            == v.spec_data() {
            let enc = v.spec_data();
            let m = enc.len() as int;
            assert(enc.subrange(0, m) =~= enc);
            assert(data[index] == enc[0]);
            match v {
                Some(x) => {
                    assert(enc[0] == 1u8);
                    lemma_subwindow(enc, 0, data, index, m, 1, m);
                    assert(enc.subrange(1, m) =~= x.spec_data());
                    assert(decodes_from_own_bytes(x, data, index + 1));
                    assert(T::spec_decodes(data, index + 1, x, index + m));
                },
                None => {
                    assert(enc[0] == 0u8);
                },
            }
        }
    }
}

/// The payload built by encoding each element of `es` in turn decodes
/// element by element back to `es`.
pub proof fn lemma_elems_data_decode<T: SerializerData + DeserializerData>(es: Seq<T>)
    requires
        codec_laws::<T>(),
        round_trips::<T>(),
        elems_data(es).len() <= u64::MAX,
    ensures
        elems_decode(elems_data(es), es),
    decreases es.len(),
{
    if es.len() == 0 {
    } else {
        let p = elems_data(es);
        let c0 = es[0].spec_data();
        let rest = elems_data(es.drop_first());
        assert(p == c0 + rest);
        assert(p.subrange(0, c0.len() as int) =~= c0);
        assert(decodes_from_own_bytes(es[0], p, 0));
        assert(T::spec_decodes(p, 0, es[0], c0.len() as int));
        assert(0 < c0.len());
        assert(p.subrange(c0.len() as int, p.len() as int) =~= rest);
        lemma_elems_data_decode(es.drop_first());
        lemma_elems_decode_cons(p, es, c0.len() as int);
    }
}

/// Round trip for the shared container layout: wherever a container's
/// encoding stands in a buffer, the container relation holds there for
/// its elements.
proof fn lemma_container_decodes_from_own_bytes<T: SerializerData + DeserializerData>(
    es: Seq<T>,
    data: Seq<u8>,
    index: int,
)
    requires
        codec_laws::<T>(),
        round_trips::<T>(),
        0 <= index,
        index + 8 + elems_data(es).len() <= data.len(),
        8 + elems_data(es).len() <= u64::MAX,
        data.subrange(index, index + 8 + elems_data(es).len() as int) == spec_u64_to_le_bytes(
            elems_data(es).len() as u64,
        ) + elems_data(es),
    ensures
        container_decodes(data, index, es, index + 8 + elems_data(es).len() as int),
{
    let payload = elems_data(es);
    let enc = spec_u64_to_le_bytes(payload.len() as u64) + payload;
    let m = enc.len() as int;
    assert(m == 8 + payload.len());
    assert(enc.subrange(0, m) =~= enc);
    lemma_subwindow(enc, 0, data, index, m, 0, 8);
    lemma_subwindow(enc, 0, data, index, m, 8, m);
    assert(enc.subrange(0, 8) =~= spec_u64_to_le_bytes(payload.len() as u64));
    assert(enc.subrange(8, m) =~= payload);
    lemma_auto_spec_u64_to_from_le_bytes();
    assert(spec_u64_from_le_bytes(data.subrange(index, index + 8)) == payload.len() as u64);
    lemma_elems_data_decode(es);
}

pub proof fn lemma_round_trips_vec<T: SerializerData + DeserializerData>()
    requires
        codec_laws::<T>(),
        round_trips::<T>(),
    ensures
        round_trips::<Vec<T>>(),
{
    assert forall|v: Vec<T>, data: Seq<u8>, index: int| #[trigger] decodes_from_own_bytes(
        v,
        data,
        index,
    ) by {
        if 0 <= index && index + v.spec_data().len() <= data.len() && v.spec_data().len()
            <= u64::MAX && data.subrange(index, index + v.spec_data().len() as int)
            == v.spec_data() {
            lemma_auto_spec_u64_to_from_le_bytes();
            lemma_container_decodes_from_own_bytes(v@, data, index);
        }
    }
}

pub proof fn lemma_round_trips_vec_deque<T: SerializerData + DeserializerData>()
    requires
        codec_laws::<T>(),
        round_trips::<T>(),
    ensures
        round_trips::<std::collections::VecDeque<T>>(),
{
    assert forall|v: std::collections::VecDeque<T>, data: Seq<u8>, index: int|
        #[trigger] decodes_from_own_bytes(v, data, index) by {
        if 0 <= index && index + v.spec_data().len() <= data.len() && v.spec_data().len()
            <= u64::MAX && data.subrange(index, index + v.spec_data().len() as int)
            == v.spec_data() {
            lemma_auto_spec_u64_to_from_le_bytes();
            lemma_container_decodes_from_own_bytes(v@, data, index);
        }
    }
}

/// The round-trip law for characters, restricted to the single-byte
/// range the wire format can carry: the encoding truncates a character
/// to its low byte, so only code points below 256 survive.  ('Ā', code
/// point 256, decodes as the null character.)
pub proof fn lemma_char_decodes_from_own_bytes(v: char, data: Seq<u8>, index: int)
    requires
        (v as u32) < 256,
    ensures
        decodes_from_own_bytes(v, data, index),
{
    if 0 <= index && index + v.spec_data().len() <= data.len() && v.spec_data().len() <= u64::MAX
        && data.subrange(index, index + v.spec_data().len() as int) == v.spec_data() {
        assert(data[index] == v.spec_data()[0]);
        assert(data[index] == v as u8);
        assert((v as u8) as u32 == v as u32) by {
            vstd::utf8::char_is_scalar(v);
        }
        assert(((v as u8) as char) == v) by {
            vstd::utf8::char_u32_cast(v, v as u32);
            assert((v as u8) as char == ((v as u8) as u32) as char);
        }
    }
}

/// Decoding is unambiguous for a covered type: whatever two values a
/// buffer position is related to, they carry the same data (compared
/// through `deep_view`, since a freshly decoded container is a new
/// object).
pub open spec fn decodes_unique<T: DeserializerData + DeepView>() -> bool {
    forall|data: Seq<u8>, index: int, v1: T, e1: int, v2: T, e2: int|
        #![trigger T::spec_decodes(data, index, v1, e1), T::spec_decodes(data, index, v2, e2)]
        T::spec_decodes(data, index, v1, e1) && T::spec_decodes(data, index, v2, e2)
            ==> v1.deep_view() == v2.deep_view()
}

pub proof fn lemma_decodes_unique_u8()
    ensures
        decodes_unique::<u8>(),
{
}

pub proof fn lemma_decodes_unique_u16()
    ensures
        decodes_unique::<u16>(),
{
}

pub proof fn lemma_decodes_unique_u32()
    ensures
        decodes_unique::<u32>(),
{
}

pub proof fn lemma_decodes_unique_u64()
    ensures
        decodes_unique::<u64>(),
{
}

pub proof fn lemma_decodes_unique_u128()
    ensures
        decodes_unique::<u128>(),
{
}

pub proof fn lemma_decodes_unique_usize()
    ensures
        decodes_unique::<usize>(),
{
}

pub proof fn lemma_decodes_unique_i8()
    ensures
        decodes_unique::<i8>(),
{
}

pub proof fn lemma_decodes_unique_i16()
    ensures
        decodes_unique::<i16>(),
{
}

pub proof fn lemma_decodes_unique_i32()
    ensures
        decodes_unique::<i32>(),
{
}

pub proof fn lemma_decodes_unique_i64()
    ensures
        decodes_unique::<i64>(),
{
}

pub proof fn lemma_decodes_unique_i128()
    ensures
        decodes_unique::<i128>(),
{
}

pub proof fn lemma_decodes_unique_isize()
    ensures
        decodes_unique::<isize>(),
{
}

pub proof fn lemma_decodes_unique_bool()
    ensures
        decodes_unique::<bool>(),
{
}

pub proof fn lemma_decodes_unique_char()
    ensures
        decodes_unique::<char>(),
{
}

pub proof fn lemma_decodes_unique_string()
    ensures
        decodes_unique::<String>(),
{
}

pub proof fn lemma_decodes_unique_option<T: DeserializerData + DeepView>()
    requires
        decodes_unique::<T>(),
    ensures
        decodes_unique::<Option<T>>(),
{
    assert forall|data: Seq<u8>, index: int, v1: Option<T>, e1: int, v2: Option<T>, e2: int|
        #![trigger <Option<T> as DeserializerData>::spec_decodes(data, index, v1, e1), <Option<
            T,
        > as DeserializerData>::spec_decodes(data, index, v2, e2)]
        <Option<T> as DeserializerData>::spec_decodes(data, index, v1, e1) && <Option<
            T,
        > as DeserializerData>::spec_decodes(data, index, v2, e2) implies v1.deep_view()
        == v2.deep_view() by {
        match (v1, v2) {
            (Some(x1), Some(x2)) => {
                assert(T::spec_decodes(data, index + 1, x1, e1));
                assert(T::spec_decodes(data, index + 1, x2, e2));
                assert(x1.deep_view() == x2.deep_view());
            },
            _ => {},
        }
    }
}

/// Two element lists decoded from the same payload carry the same data,
/// element for element.
pub proof fn lemma_elems_decode_unique<T: DeserializerData + DeepView>(
    payload: Seq<u8>,
    es1: Seq<T>,
    es2: Seq<T>,
)
    requires
        codec_laws::<T>(),
        decodes_unique::<T>(),
        elems_decode(payload, es1),
        elems_decode(payload, es2),
    ensures
        es1.len() == es2.len(),
        forall|i: int|
            0 <= i < es1.len() ==> #[trigger] es1[i].deep_view() == es2[i].deep_view(),
    decreases es1.len(),
{
    if es1.len() == 0 {
        if es2.len() > 0 {
            let j2 = lemma_elems_decode_uncons(payload, es2);
        }
    } else {
        if es2.len() == 0 {
            let j1 = lemma_elems_decode_uncons(payload, es1);
        } else {
            let j1 = lemma_elems_decode_uncons(payload, es1);
            let j2 = lemma_elems_decode_uncons(payload, es2);
            assert(j1 == j2);
            lemma_elems_decode_unique(
                payload.subrange(j1, payload.len() as int),
                es1.drop_first(),
                es2.drop_first(),
            );
            assert(es1[0].deep_view() == es2[0].deep_view());
            assert forall|i: int| 0 <= i < es1.len() implies #[trigger] es1[i].deep_view()
                == es2[i].deep_view() by {
                if i > 0 {
                    assert(es1.drop_first()[i - 1].deep_view() == es2.drop_first()[
                        i - 1].deep_view());
                }
            }
        }
    }
}

pub proof fn lemma_decodes_unique_vec<T: DeserializerData + DeepView>()
    requires
        decodes_unique::<T>(),
    ensures
        decodes_unique::<Vec<T>>(),
{
    assert forall|data: Seq<u8>, index: int, v1: Vec<T>, e1: int, v2: Vec<T>, e2: int|
        #![trigger <Vec<T> as DeserializerData>::spec_decodes(data, index, v1, e1), <Vec<
            T,
        > as DeserializerData>::spec_decodes(data, index, v2, e2)]
        <Vec<T> as DeserializerData>::spec_decodes(data, index, v1, e1) && <Vec<
            T,
        > as DeserializerData>::spec_decodes(data, index, v2, e2) implies v1.deep_view()
        == v2.deep_view() by {
        let size = spec_u64_from_le_bytes(data.subrange(index, index + 8)) as int;
        let payload = data.subrange(index + 8, index + 8 + size);
        lemma_elems_decode_unique(payload, v1@, v2@);
        assert(v1.deep_view() =~= v2.deep_view());
    }
}

pub proof fn lemma_decodes_unique_vec_deque<T: DeserializerData + DeepView>()
    requires
        decodes_unique::<T>(),
    ensures
        decodes_unique::<std::collections::VecDeque<T>>(),
{
    assert forall|
        data: Seq<u8>,
        index: int,
        v1: std::collections::VecDeque<T>,
        e1: int,
        v2: std::collections::VecDeque<T>,
        e2: int,
    |
        #![trigger <std::collections::VecDeque<T> as DeserializerData>::spec_decodes(
            data,
            index,
            v1,
            e1,
        ), <std::collections::VecDeque<T> as DeserializerData>::spec_decodes(
            data,
            index,
            v2,
            e2,
        )]
        <std::collections::VecDeque<T> as DeserializerData>::spec_decodes(data, index, v1, e1)
            && <std::collections::VecDeque<T> as DeserializerData>::spec_decodes(
            data,
            index,
            v2,
            e2,
        ) implies v1.deep_view() == v2.deep_view() by {
        let size = spec_u64_from_le_bytes(data.subrange(index, index + 8)) as int;
        let payload = data.subrange(index + 8, index + 8 + size);
        lemma_elems_decode_unique(payload, v1@, v2@);
        assert(v1.deep_view() =~= v2.deep_view());
    }
}

/// The round-trip law in its user-facing form: whatever `from_data`
/// returns on the buffer `to_data` built carries the same data as the
/// encoded value, and its cursor is the full encoding length.
pub proof fn lemma_round_trip<T: SerializerData + DeserializerData + DeepView>(
    v: T,
    w: T,
    end: int,
)
    requires
        codec_laws::<T>(),
        round_trips::<T>(),
        decodes_unique::<T>(),
        v.spec_data().len() <= u64::MAX,
        T::spec_decodes(v.spec_data(), 0, w, end),
    ensures
        w.deep_view() == v.deep_view(),
        end == v.spec_data().len(),
{
    assert(decodes_from_own_bytes(v, v.spec_data(), 0));
    assert(v.spec_data().subrange(0, v.spec_data().len() as int) =~= v.spec_data());
    assert(T::spec_decodes(v.spec_data(), 0, v, v.spec_data().len() as int));
    assert(end == v.spec_data().len());
    assert(w.deep_view() == v.deep_view());
}

/// Composability: two values encoded back to back into one buffer
/// decode in sequence, the second starting exactly where the first
/// ended, to the same values as from their own buffers.
pub proof fn lemma_composability<
    A: SerializerData + DeserializerData,
    B: SerializerData + DeserializerData,
>(a: A, b: B, data: Seq<u8>, index: int)
    requires
        round_trips::<A>(),
        round_trips::<B>(),
        0 <= index,
        index + a.spec_data().len() + b.spec_data().len() <= data.len(),
        a.spec_data().len() <= u64::MAX,
        b.spec_data().len() <= u64::MAX,
        data.subrange(index, index + a.spec_data().len() + b.spec_data().len()) == a.spec_data()
            + b.spec_data(),
    ensures
        A::spec_decodes(data, index, a, index + a.spec_data().len() as int),
        B::spec_decodes(
            data,
            index + a.spec_data().len() as int,
            b,
            index + a.spec_data().len() + b.spec_data().len(),
        ),
{
    let la = a.spec_data().len() as int;
    let lb = b.spec_data().len() as int;
    let m = la + lb;
    let enc = a.spec_data() + b.spec_data();
    assert(enc.subrange(0, m) =~= enc);
    lemma_subwindow(enc, 0, data, index, m, 0, la);
    lemma_subwindow(enc, 0, data, index, m, la, m);
    assert(enc.subrange(0, la) =~= a.spec_data());
    assert(enc.subrange(la, m) =~= b.spec_data());
    assert(decodes_from_own_bytes(a, data, index));
    assert(decodes_from_own_bytes(b, data, index + la));
}

/// Length-prefix exactness for sequences: the word-sized field at the
/// start of the encoding counts the payload bytes, never the elements.
pub proof fn lemma_length_prefix_vec<T: SerializerData>(v: Vec<T>)
    requires
        elems_data(v@).len() <= u64::MAX,
    ensures
        v.spec_data().len() == 8 + elems_data(v@).len(),
        spec_u64_from_le_bytes(v.spec_data().subrange(0, 8)) == elems_data(v@).len(),
{
    lemma_auto_spec_u64_to_from_le_bytes();
    assert(v.spec_data().subrange(0, 8) =~= spec_u64_to_le_bytes(elems_data(v@).len() as u64));
}

/// Length-prefix exactness for double-ended sequences.
pub proof fn lemma_length_prefix_vec_deque<T: SerializerData>(v: std::collections::VecDeque<T>)
    requires
        elems_data(v@).len() <= u64::MAX,
    ensures
        v.spec_data().len() == 8 + elems_data(v@).len(),
        spec_u64_from_le_bytes(v.spec_data().subrange(0, 8)) == elems_data(v@).len(),
{
    lemma_auto_spec_u64_to_from_le_bytes();
    assert(v.spec_data().subrange(0, 8) =~= spec_u64_to_le_bytes(elems_data(v@).len() as u64));
}

/// Length-prefix exactness for text: the field counts the text's
/// encoded bytes, not its characters.
pub proof fn lemma_length_prefix_string(v: String)
    requires
        encode_utf8(v@).len() <= u64::MAX,
    ensures
        v.spec_data().len() == 8 + encode_utf8(v@).len(),
        spec_u64_from_le_bytes(v.spec_data().subrange(0, 8)) == encode_utf8(v@).len(),
{
    lemma_auto_spec_u64_to_from_le_bytes();
    assert(v.spec_data().subrange(0, 8) =~= spec_u64_to_le_bytes(encode_utf8(v@).len() as u64));
}

/// Boundary: a container whose length prefix is zero decodes to the
/// empty container, and the cursor advances by exactly the prefix.
pub proof fn lemma_boundary_empty<T: DeserializerData>(
    data: Seq<u8>,
    index: int,
    es: Seq<T>,
    end: int,
)
    requires
        container_decodes(data, index, es, end),
        spec_u64_from_le_bytes(data.subrange(index, index + 8)) == 0,
    ensures
        es.len() == 0,
        end == index + 8,
{
    if es.len() > 0 {
        let j = lemma_elems_decode_uncons(data.subrange(index + 8, index + 8), es);
    }
}

/// The fixed-width relations all satisfy the codec discipline by the
/// same argument: the value is read from, and the cursor advance is,
/// the type's own byte width.  One lemma per covered type keeps the
/// statements usable one by one.
pub proof fn lemma_codec_laws_u8()
    ensures
        codec_laws::<u8>(),
{
    reveal(decodes_in_window);
    assert forall|data: Seq<u8>, index: int, v: u8, end: int|
        #[trigger] u8::spec_decodes(data, index, v, end) && 0 <= index implies index < end
        <= data.len() && decodes_in_window(data, index, end, v) by {
        assert(data.subrange(index, end)[0] == data[index]);
    }
    assert forall|data: Seq<u8>, index: int, end: int, v: u8|
        #[trigger] decodes_in_window(data, index, end, v) && 0 <= index && index < end && end
        <= data.len() implies u8::spec_decodes(data, index, v, end) by {
        assert(data.subrange(index, end)[0] == data[index]);
    }
}

pub proof fn lemma_codec_laws_u16()
    ensures
        codec_laws::<u16>(),
{
    reveal(decodes_in_window);
    assert forall|data: Seq<u8>, index: int, v: u16, end: int|
        #[trigger] u16::spec_decodes(data, index, v, end) && 0 <= index implies index < end
        <= data.len() && decodes_in_window(data, index, end, v) by {
        assert(data.subrange(index, end).subrange(0, 2) =~= data.subrange(index, index + 2));
    }
    assert forall|data: Seq<u8>, index: int, end: int, v: u16|
        #[trigger] decodes_in_window(data, index, end, v) && 0 <= index && index < end && end
        <= data.len() implies u16::spec_decodes(data, index, v, end) by {
        assert(data.subrange(index, end).subrange(0, 2) =~= data.subrange(index, index + 2));
    }
}

pub proof fn lemma_codec_laws_u32()
    ensures
        codec_laws::<u32>(),
{
    reveal(decodes_in_window);
    assert forall|data: Seq<u8>, index: int, v: u32, end: int|
        #[trigger] u32::spec_decodes(data, index, v, end) && 0 <= index implies index < end
        <= data.len() && decodes_in_window(data, index, end, v) by {
        assert(data.subrange(index, end).subrange(0, 4) =~= data.subrange(index, index + 4));
    }
    assert forall|data: Seq<u8>, index: int, end: int, v: u32|
        #[trigger] decodes_in_window(data, index, end, v) && 0 <= index && index < end && end
        <= data.len() implies u32::spec_decodes(data, index, v, end) by {
        assert(data.subrange(index, end).subrange(0, 4) =~= data.subrange(index, index + 4));
    }
}

pub proof fn lemma_codec_laws_u64()
    ensures
        codec_laws::<u64>(),
{
    reveal(decodes_in_window);
    assert forall|data: Seq<u8>, index: int, v: u64, end: int|
        #[trigger] u64::spec_decodes(data, index, v, end) && 0 <= index implies index < end
        <= data.len() && decodes_in_window(data, index, end, v) by {
        assert(data.subrange(index, end).subrange(0, 8) =~= data.subrange(index, index + 8));
    }
    assert forall|data: Seq<u8>, index: int, end: int, v: u64|
        #[trigger] decodes_in_window(data, index, end, v) && 0 <= index && index < end && end
        <= data.len() implies u64::spec_decodes(data, index, v, end) by {
        assert(data.subrange(index, end).subrange(0, 8) =~= data.subrange(index, index + 8));
    }
}

pub proof fn lemma_codec_laws_u128()
    ensures
        codec_laws::<u128>(),
{
    reveal(decodes_in_window);
    assert forall|data: Seq<u8>, index: int, v: u128, end: int|
        #[trigger] u128::spec_decodes(data, index, v, end) && 0 <= index implies index < end
        <= data.len() && decodes_in_window(data, index, end, v) by {
        assert(data.subrange(index, end).subrange(0, 16) =~= data.subrange(index, index + 16));
    }
    assert forall|data: Seq<u8>, index: int, end: int, v: u128|
        #[trigger] decodes_in_window(data, index, end, v) && 0 <= index && index < end && end
        <= data.len() implies u128::spec_decodes(data, index, v, end) by {
        assert(data.subrange(index, end).subrange(0, 16) =~= data.subrange(index, index + 16));
    }
}

pub proof fn lemma_codec_laws_usize()
    ensures
        codec_laws::<usize>(),
{
    reveal(decodes_in_window);
    assert forall|data: Seq<u8>, index: int, v: usize, end: int|
        #[trigger] usize::spec_decodes(data, index, v, end) && 0 <= index implies index < end
        <= data.len() && decodes_in_window(data, index, end, v) by {
        assert(data.subrange(index, end).subrange(0, 8) =~= data.subrange(index, index + 8));
    }
    assert forall|data: Seq<u8>, index: int, end: int, v: usize|
        #[trigger] decodes_in_window(data, index, end, v) && 0 <= index && index < end && end
        <= data.len() implies usize::spec_decodes(data, index, v, end) by {
        assert(data.subrange(index, end).subrange(0, 8) =~= data.subrange(index, index + 8));
    }
}

pub proof fn lemma_codec_laws_i8()
    ensures
        codec_laws::<i8>(),
{
    reveal(decodes_in_window);
    assert forall|data: Seq<u8>, index: int, v: i8, end: int|
        #[trigger] i8::spec_decodes(data, index, v, end) && 0 <= index implies index < end
        <= data.len() && decodes_in_window(data, index, end, v) by {
        assert(data.subrange(index, end)[0] == data[index]);
    }
    assert forall|data: Seq<u8>, index: int, end: int, v: i8|
        #[trigger] decodes_in_window(data, index, end, v) && 0 <= index && index < end && end
        <= data.len() implies i8::spec_decodes(data, index, v, end) by {
        assert(data.subrange(index, end)[0] == data[index]);
    }
}

pub proof fn lemma_codec_laws_i16()
    ensures
        codec_laws::<i16>(),
{
    reveal(decodes_in_window);
    assert forall|data: Seq<u8>, index: int, v: i16, end: int|
        #[trigger] i16::spec_decodes(data, index, v, end) && 0 <= index implies index < end
        <= data.len() && decodes_in_window(data, index, end, v) by {
        assert(data.subrange(index, end).subrange(0, 2) =~= data.subrange(index, index + 2));
    }
    assert forall|data: Seq<u8>, index: int, end: int, v: i16|
        #[trigger] decodes_in_window(data, index, end, v) && 0 <= index && index < end && end
        <= data.len() implies i16::spec_decodes(data, index, v, end) by {
        assert(data.subrange(index, end).subrange(0, 2) =~= data.subrange(index, index + 2));
    }
}

pub proof fn lemma_codec_laws_i32()
    ensures
        codec_laws::<i32>(),
{
    reveal(decodes_in_window);
    assert forall|data: Seq<u8>, index: int, v: i32, end: int|
        #[trigger] i32::spec_decodes(data, index, v, end) && 0 <= index implies index < end
        <= data.len() && decodes_in_window(data, index, end, v) by {
        assert(data.subrange(index, end).subrange(0, 4) =~= data.subrange(index, index + 4));
    }
    assert forall|data: Seq<u8>, index: int, end: int, v: i32|
        #[trigger] decodes_in_window(data, index, end, v) && 0 <= index && index < end && end
        <= data.len() implies i32::spec_decodes(data, index, v, end) by {
        assert(data.subrange(index, end).subrange(0, 4) =~= data.subrange(index, index + 4));
    }
}

pub proof fn lemma_codec_laws_i64()
    ensures
        codec_laws::<i64>(),
{
    reveal(decodes_in_window);
    assert forall|data: Seq<u8>, index: int, v: i64, end: int|
        #[trigger] i64::spec_decodes(data, index, v, end) && 0 <= index implies index < end
        <= data.len() && decodes_in_window(data, index, end, v) by {
        assert(data.subrange(index, end).subrange(0, 8) =~= data.subrange(index, index + 8));
    }
    assert forall|data: Seq<u8>, index: int, end: int, v: i64|
        #[trigger] decodes_in_window(data, index, end, v) && 0 <= index && index < end && end
        <= data.len() implies i64::spec_decodes(data, index, v, end) by {
        assert(data.subrange(index, end).subrange(0, 8) =~= data.subrange(index, index + 8));
    }
}

pub proof fn lemma_codec_laws_i128()
    ensures
        codec_laws::<i128>(),
{
    reveal(decodes_in_window);
    assert forall|data: Seq<u8>, index: int, v: i128, end: int|
        #[trigger] i128::spec_decodes(data, index, v, end) && 0 <= index implies index < end
        <= data.len() && decodes_in_window(data, index, end, v) by {
        assert(data.subrange(index, end).subrange(0, 16) =~= data.subrange(index, index + 16));
    }
    assert forall|data: Seq<u8>, index: int, end: int, v: i128|
        #[trigger] decodes_in_window(data, index, end, v) && 0 <= index && index < end && end
        <= data.len() implies i128::spec_decodes(data, index, v, end) by {
        assert(data.subrange(index, end).subrange(0, 16) =~= data.subrange(index, index + 16));
    }
}

pub proof fn lemma_codec_laws_isize()
    ensures
        codec_laws::<isize>(),
{
    reveal(decodes_in_window);
    assert forall|data: Seq<u8>, index: int, v: isize, end: int|
        #[trigger] isize::spec_decodes(data, index, v, end) && 0 <= index implies index < end
        <= data.len() && decodes_in_window(data, index, end, v) by {
        assert(data.subrange(index, end).subrange(0, 8) =~= data.subrange(index, index + 8));
    }
    assert forall|data: Seq<u8>, index: int, end: int, v: isize|
        #[trigger] decodes_in_window(data, index, end, v) && 0 <= index && index < end && end
        <= data.len() implies isize::spec_decodes(data, index, v, end) by {
        assert(data.subrange(index, end).subrange(0, 8) =~= data.subrange(index, index + 8));
    }
}

pub proof fn lemma_codec_laws_bool()
    ensures
        codec_laws::<bool>(),
{
    reveal(decodes_in_window);
    assert forall|data: Seq<u8>, index: int, v: bool, end: int|
        #[trigger] bool::spec_decodes(data, index, v, end) && 0 <= index implies index < end
        <= data.len() && decodes_in_window(data, index, end, v) by {
        assert(data.subrange(index, end)[0] == data[index]);
    }
    assert forall|data: Seq<u8>, index: int, end: int, v: bool|
        #[trigger] decodes_in_window(data, index, end, v) && 0 <= index && index < end && end
        <= data.len() implies bool::spec_decodes(data, index, v, end) by {
        assert(data.subrange(index, end)[0] == data[index]);
    }
}

pub proof fn lemma_codec_laws_char()
    ensures
        codec_laws::<char>(),
{
    reveal(decodes_in_window);
    assert forall|data: Seq<u8>, index: int, v: char, end: int|
        #[trigger] char::spec_decodes(data, index, v, end) && 0 <= index implies index < end
        <= data.len() && decodes_in_window(data, index, end, v) by {
        assert(data.subrange(index, end)[0] == data[index]);
    }
    assert forall|data: Seq<u8>, index: int, end: int, v: char|
        #[trigger] decodes_in_window(data, index, end, v) && 0 <= index && index < end && end
        <= data.len() implies char::spec_decodes(data, index, v, end) by {
        assert(data.subrange(index, end)[0] == data[index]);
    }
}

pub proof fn lemma_codec_laws_string()
    ensures
        codec_laws::<String>(),
{
    reveal(decodes_in_window);
    assert forall|data: Seq<u8>, index: int, v: String, end: int|
        #[trigger] String::spec_decodes(data, index, v, end) && 0 <= index implies index < end
        <= data.len() && decodes_in_window(data, index, end, v) by {
        let m = end - index;
        assert(data.subrange(index, end).subrange(0, m) =~= data.subrange(index, index + m));
        lemma_subwindow(data, index, data.subrange(index, end), 0, m, 0, 8);
        lemma_subwindow(data, index, data.subrange(index, end), 0, m, 8, m);
    }
    assert forall|data: Seq<u8>, index: int, end: int, v: String|
        #[trigger] decodes_in_window(data, index, end, v) && 0 <= index && index < end && end
        <= data.len() implies String::spec_decodes(data, index, v, end) by {
        let m = end - index;
        let w = data.subrange(index, end);
        assert(String::spec_decodes(w, 0, v, m));
        assert(w.subrange(0, m) =~= data.subrange(index, index + m));
        lemma_subwindow(data, index, w, 0, m, 0, 8);
        lemma_subwindow(data, index, w, 0, m, 8, m);
    }
}

pub proof fn lemma_codec_laws_option<T: DeserializerData>()
    requires
        codec_laws::<T>(),
    ensures
        codec_laws::<Option<T>>(),
{
    reveal(decodes_in_window);
    assert forall|data: Seq<u8>, index: int, v: Option<T>, end: int|
        #[trigger] <Option<T> as DeserializerData>::spec_decodes(data, index, v, end) && 0 <= index
        implies index < end <= data.len() && decodes_in_window(data, index, end, v) by {
        let m = end - index;
        match v {
            Some(x) => {
                assert(T::spec_decodes(data, index + 1, x, end));
                assert(index + 1 < end <= data.len());
                assert(decodes_in_window(data, index + 1, end, x));
                let w = data.subrange(index, end);
                assert(w[0] == data[index]);
                assert(w.subrange(1, m) =~= data.subrange(index + 1, end));
                assert(decodes_in_window(w, 1, m, x));
                assert(T::spec_decodes(w, 1, x, m));
            },
            None => {
                let w = data.subrange(index, end);
                assert(w[0] == data[index]);
            },
        }
    }
    assert forall|data: Seq<u8>, index: int, end: int, v: Option<T>|
        #[trigger] decodes_in_window(data, index, end, v) && 0 <= index && index < end && end
        <= data.len() implies <Option<T> as DeserializerData>::spec_decodes(data, index, v, end) by {
        let m = end - index;
        let w = data.subrange(index, end);
        assert(w[0] == data[index]);
        match v {
            Some(x) => {
                assert(T::spec_decodes(w, 1, x, m));
                assert(1 < m <= w.len());
                assert(decodes_in_window(w, 1, m, x));
                assert(w.subrange(1, m) =~= data.subrange(index + 1, end));
                assert(decodes_in_window(data, index + 1, end, x));
                assert(T::spec_decodes(data, index + 1, x, end));
            },
            None => {},
        }
    }
}

/// The shared container relation obeys the discipline whenever its
/// element type does.
proof fn lemma_codec_laws_container<T: DeserializerData>(
    data: Seq<u8>,
    index: int,
    es: Seq<T>,
    end: int,
)
    requires
        container_decodes(data, index, es, end),
        0 <= index,
    ensures
        index < end <= data.len(),
        container_decodes(data.subrange(index, end), 0, es, end - index),
{
    let m = end - index;
    let w = data.subrange(index, end);
    assert(w.subrange(0, m) =~= data.subrange(index, index + m));
    lemma_subwindow(data, index, w, 0, m, 0, 8);
    lemma_subwindow(data, index, w, 0, m, 8, m);
}

/// And back: the relation holds wherever the window's bytes stand.
proof fn lemma_codec_laws_container_back<T: DeserializerData>(
    data: Seq<u8>,
    index: int,
    es: Seq<T>,
    end: int,
)
    requires
        container_decodes(data.subrange(index, end), 0, es, end - index),
        0 <= index,
        index < end,
        end <= data.len(),
    ensures
        container_decodes(data, index, es, end),
{
    let m = end - index;
    let w = data.subrange(index, end);
    assert(w.subrange(0, m) =~= data.subrange(index, index + m));
    lemma_subwindow(data, index, w, 0, m, 0, 8);
    lemma_subwindow(data, index, w, 0, m, 8, m);
}

pub proof fn lemma_codec_laws_vec<T: DeserializerData>()
    requires
        codec_laws::<T>(),
    ensures
        codec_laws::<Vec<T>>(),
{
    reveal(decodes_in_window);
    assert forall|data: Seq<u8>, index: int, v: Vec<T>, end: int|
        #[trigger] <Vec<T> as DeserializerData>::spec_decodes(data, index, v, end) && 0 <= index
        implies index < end <= data.len() && decodes_in_window(data, index, end, v) by {
        lemma_codec_laws_container(data, index, v@, end);
    }
    assert forall|data: Seq<u8>, index: int, end: int, v: Vec<T>|
        #[trigger] decodes_in_window(data, index, end, v) && 0 <= index && index < end && end
        <= data.len() implies <Vec<T> as DeserializerData>::spec_decodes(data, index, v, end) by {
        lemma_codec_laws_container_back(data, index, v@, end);
    }
}

pub proof fn lemma_codec_laws_vec_deque<T: DeserializerData>()
    requires
        codec_laws::<T>(),
    ensures
        codec_laws::<std::collections::VecDeque<T>>(),
{
    reveal(decodes_in_window);
    assert forall|data: Seq<u8>, index: int, v: std::collections::VecDeque<T>, end: int|
        #[trigger] <std::collections::VecDeque<T> as DeserializerData>::spec_decodes(
            data,
            index,
            v,
            end,
        ) && 0 <= index implies index < end <= data.len() && decodes_in_window(
        data,
        index,
        end,
        v,
    ) by {
        lemma_codec_laws_container(data, index, v@, end);
    }
    assert forall|data: Seq<u8>, index: int, end: int, v: std::collections::VecDeque<T>|
        #[trigger] decodes_in_window(data, index, end, v) && 0 <= index && index < end && end
        <= data.len() implies <std::collections::VecDeque<T> as DeserializerData>::spec_decodes(
        data,
        index,
        v,
        end,
    ) by {
        lemma_codec_laws_container_back(data, index, v@, end);
    }
}


/// A key-value entry obeys the codec discipline whenever its two
/// halves do.
#[verifier::rlimit(30)]
pub proof fn lemma_codec_laws_pair<K: DeserializerData, V: DeserializerData>()
    requires
        codec_laws::<K>(),
        codec_laws::<V>(),
    ensures
        codec_laws::<(K, V)>(),
{
    reveal(decodes_in_window);
    assert forall|data: Seq<u8>, index: int, kv: (K, V), end: int|
        #[trigger] <(K, V) as DeserializerData>::spec_decodes(data, index, kv, end) && 0 <= index
        implies index < end <= data.len() && decodes_in_window(data, index, end, kv) by {
        let mid = choose|mid: int| pair_decodes_at(data, index, kv, mid, end);
        assert(K::spec_decodes(data, index, kv.0, mid));
        assert(V::spec_decodes(data, mid, kv.1, end));
        let m = end - index;
        let w = data.subrange(index, end);
        assert(w.subrange(0, m) =~= data.subrange(index, index + m));
        lemma_subwindow(data, index, w, 0, m, 0, mid - index);
        lemma_subwindow(data, index, w, 0, m, mid - index, m);
        assert(decodes_in_window(data, index, mid, kv.0));
        assert(decodes_in_window(w, 0, mid - index, kv.0));
        assert(K::spec_decodes(w, 0, kv.0, mid - index));
        assert(decodes_in_window(data, mid, end, kv.1));
        assert(decodes_in_window(w, mid - index, m, kv.1));
        assert(V::spec_decodes(w, mid - index, kv.1, m));
        assert(pair_decodes_at(w, 0, kv, mid - index, m));
        assert(<(K, V) as DeserializerData>::spec_decodes(w, 0, kv, m));
    }
    assert forall|data: Seq<u8>, index: int, end: int, kv: (K, V)|
        #[trigger] decodes_in_window(data, index, end, kv) && 0 <= index && index < end && end
        <= data.len() implies <(K, V) as DeserializerData>::spec_decodes(data, index, kv, end) by {
        let m = end - index;
        let w = data.subrange(index, end);
        let mid = choose|mid: int| pair_decodes_at(w, 0, kv, mid, m);
        assert(K::spec_decodes(w, 0, kv.0, mid));
        assert(V::spec_decodes(w, mid, kv.1, m));
        assert(w.subrange(0, m) =~= data.subrange(index, index + m));
        lemma_subwindow(data, index, w, 0, m, 0, mid);
        lemma_subwindow(data, index, w, 0, m, mid, m);
        assert(decodes_in_window(w, 0, mid, kv.0));
        assert(decodes_in_window(data, index, index + mid, kv.0));
        assert(K::spec_decodes(data, index, kv.0, index + mid));
        assert(decodes_in_window(w, mid, m, kv.1));
        assert(decodes_in_window(data, index + mid, end, kv.1));
        assert(V::spec_decodes(data, index + mid, kv.1, end));
        assert(pair_decodes_at(data, index, kv, index + mid, end));
    }
    assert forall|data: Seq<u8>, index: int, kv1: (K, V), e1: int, kv2: (K, V), e2: int|
        #![trigger <(K, V) as DeserializerData>::spec_decodes(data, index, kv1, e1), <(
            K,
            V,
        ) as DeserializerData>::spec_decodes(data, index, kv2, e2)]
        <(K, V) as DeserializerData>::spec_decodes(data, index, kv1, e1) && <(
            K,
            V,
        ) as DeserializerData>::spec_decodes(data, index, kv2, e2) && 0 <= index implies e1
        == e2 by {
        let mid1 = choose|mid: int| pair_decodes_at(data, index, kv1, mid, e1);
        let mid2 = choose|mid: int| pair_decodes_at(data, index, kv2, mid, e2);
        assert(K::spec_decodes(data, index, kv1.0, mid1));
        assert(K::spec_decodes(data, index, kv2.0, mid2));
        assert(mid1 == mid2);
        assert(V::spec_decodes(data, mid1, kv1.1, e1));
        assert(V::spec_decodes(data, mid1, kv2.1, e2));
    }
}

/// Boundary for ordered maps: a zero length prefix decodes to the
/// empty map, and the cursor advances by exactly the prefix.
pub proof fn lemma_boundary_empty_btree_map<
    K: DeserializerData + Eq + Hash + Ord,
    V: DeserializerData,
>(data: Seq<u8>, index: int, m: BTreeMap<K, V>, end: int)
    requires
        <BTreeMap<K, V> as DeserializerData>::spec_decodes(data, index, m, end),
        spec_u64_from_le_bytes(data.subrange(index, index + 8)) == 0,
    ensures
        m@ == Map::<K, V>::empty(),
        end == index + 8,
{
    let es = choose|es: Seq<(K, V)>|
        #[trigger] container_decodes(data, index, es, end) && m@ == map_of_pairs(es);
    lemma_boundary_empty(data, index, es, end);
}

/// Boundary for hashed maps.
pub proof fn lemma_boundary_empty_hash_map<K: DeserializerData + Eq + Hash, V: DeserializerData>(
    data: Seq<u8>,
    index: int,
    m: HashMap<K, V>,
    end: int,
)
    requires
        <HashMap<K, V> as DeserializerData>::spec_decodes(data, index, m, end),
        spec_u64_from_le_bytes(data.subrange(index, index + 8)) == 0,
    ensures
        m@ == Map::<K, V>::empty(),
        end == index + 8,
{
    let es = choose|es: Seq<(K, V)>|
        #[trigger] container_decodes(data, index, es, end) && m@ == map_of_pairs(es);
    lemma_boundary_empty(data, index, es, end);
}

/// Boundary for ordered sets.
pub proof fn lemma_boundary_empty_btree_set<T: DeserializerData + Eq + Hash + Ord>(
    data: Seq<u8>,
    index: int,
    s: BTreeSet<T>,
    end: int,
)
    requires
        <BTreeSet<T> as DeserializerData>::spec_decodes(data, index, s, end),
        spec_u64_from_le_bytes(data.subrange(index, index + 8)) == 0,
    ensures
        s@ == Set::<T>::empty(),
        end == index + 8,
{
    let es = choose|es: Seq<T>|
        #[trigger] container_decodes(data, index, es, end) && s@ == set_of_elems(es);
    lemma_boundary_empty(data, index, es, end);
}

/// Boundary for hashed sets.
pub proof fn lemma_boundary_empty_hash_set<T: DeserializerData + Eq + Hash>(
    data: Seq<u8>,
    index: int,
    s: HashSet<T>,
    end: int,
)
    requires
        <HashSet<T> as DeserializerData>::spec_decodes(data, index, s, end),
        spec_u64_from_le_bytes(data.subrange(index, index + 8)) == 0,
    ensures
        s@ == Set::<T>::empty(),
        end == index + 8,
{
    let es = choose|es: Seq<T>|
        #[trigger] container_decodes(data, index, es, end) && s@ == set_of_elems(es);
    lemma_boundary_empty(data, index, es, end);
}

} // verus!
