//! `Content` implementations for common std things: bytes, the unit value,
//! fixed-width big-endian integers, `Option`, and `Box`.

use vstd::prelude::*;

use crate::content::{is_prefix, lemma_eq_len_prefixes, Content, Sink, Source, StoreError};
use crate::hash::blake2s_of;

verus! {

/// Law: an absent optional value round-trips to absent and a present one
/// wrapping `x` to present wrapping a value equal to `x`: when the inner
/// protocol is injective, any well-formed optional whose encoding begins the
/// stored encoding (which is what decoding a stored optional yields) is the
/// stored optional itself.
pub proof fn lemma_option_round_trip<T: Content>(v: Option<T>, w: Option<T>)
    requires
        T::injective(),
        v.wf(),
        w.wf(),
        is_prefix(w.encoding(), v.encoding()),
    ensures
        w == v,
{
    crate::store::lemma_round_trip::<Option<T>>(v, w);
}

/// Law: tag validation. No optional value's encoding begins with a tag byte
/// other than 0 or 1, so by `from_content`'s contract, decoding such bytes
/// fails with a decode error — never by abrupt termination, which no
/// verified function of this crate can exhibit.
pub proof fn lemma_option_tag_validation<T: Content>(s: Seq<u8>)
    requires
        s.len() > 0,
        s[0] != 0u8,
        s[0] != 1u8,
    ensures
        forall|v: Option<T>| v.wf() ==> !is_prefix(#[trigger] v.encoding(), s),
{
    assert forall|v: Option<T>| v.wf() implies !is_prefix(#[trigger] v.encoding(), s) by {
        if is_prefix(v.encoding(), s) {
            let l = v.encoding().len() as int;
            assert(s.take(l)[0] == s[0]);
            match v {
                Option::None => {
                    assert(v.encoding()[0] == 0u8);
                },
                Option::Some(x) => {
                    assert(v.encoding()[0] == 1u8);
                },
            }
        }
    }
}

/// Law: indirection transparency. A heap-indirected value encodes exactly as
/// the value itself — indirection is invisible on the wire — and therefore
/// both receive the same digest.
pub proof fn lemma_indirection_transparent<T: Content>(b: Box<T>)
    ensures
        b.encoding() == (*b).encoding(),
        blake2s_of(b.encoding()) == blake2s_of((*b).encoding()),
{
}

impl Content for u8 {
    open spec fn wf(&self) -> bool {
        true
    }

    open spec fn encoding(&self) -> Seq<u8> {
        seq![*self]
    }

    open spec fn injective() -> bool {
        true
    }

    proof fn lemma_prefix_free(v: Self, w: Self, r1: Seq<u8>, r2: Seq<u8>) {
        lemma_eq_len_prefixes(v.encoding(), w.encoding(), r1, r2);
    }

    proof fn lemma_injective(v: Self, w: Self) {
        assert(v == v.encoding()[0]);
        assert(w == w.encoding()[0]);
    }

    fn to_content(&self, sink: &mut Sink) -> (r: Result<(), StoreError>) {
        let ghost s0 = sink@;
        sink.write_byte(*self);
        proof {
            assert(sink@ =~= s0 + self.encoding());
        }
        Ok(())
    }

    fn from_content(source: &mut Source) -> (r: Result<Self, StoreError>) {
        let ghost rem0 = source.remaining();
        match source.read_byte() {
            Ok(b) => {
                proof {
                    assert(b.encoding() =~= rem0.take(1));
                }
                Ok(b)
            },
            Err(e) => {
                proof {
                    assert forall|v: u8| v.wf() implies !is_prefix(
                        #[trigger] v.encoding(),
                        rem0,
                    ) by {
                        assert(v.encoding().len() == 1);
                    }
                }
                Err(e)
            },
        }
    }
}

/// Big-endian, fixed-width byte forms of the unsigned integers. The signed
/// integers encode as the same width through their two's-complement bits.
pub open spec fn be16(v: u16) -> Seq<u8> {
    seq![(v >> 8) as u8, v as u8]
}

pub open spec fn be32(v: u32) -> Seq<u8> {
    seq![(v >> 24) as u8, (v >> 16) as u8, (v >> 8) as u8, v as u8]
}

pub open spec fn be64(v: u64) -> Seq<u8> {
    seq![
        (v >> 56) as u8,
        (v >> 48) as u8,
        (v >> 40) as u8,
        (v >> 32) as u8,
        (v >> 24) as u8,
        (v >> 16) as u8,
        (v >> 8) as u8,
        v as u8,
    ]
}

impl Content for u16 {
    open spec fn wf(&self) -> bool {
        true
    }

    open spec fn encoding(&self) -> Seq<u8> {
        be16(*self)
    }

    open spec fn injective() -> bool {
        true
    }

    proof fn lemma_prefix_free(v: Self, w: Self, r1: Seq<u8>, r2: Seq<u8>) {
        lemma_eq_len_prefixes(v.encoding(), w.encoding(), r1, r2);
    }

    proof fn lemma_injective(v: Self, w: Self) {
        assert(v.encoding()[0] == w.encoding()[0]);
        assert(v.encoding()[1] == w.encoding()[1]);
        assert(((v >> 8) as u8 == (w >> 8) as u8 && v as u8 == w as u8) ==> v == w)
            by (bit_vector);
    }

    fn to_content(&self, sink: &mut Sink) -> (r: Result<(), StoreError>) {
        let ghost s0 = sink@;
        sink.write_byte(#[verifier::truncate] ((*self >> 8) as u8));
        sink.write_byte(#[verifier::truncate] (*self as u8));
        proof {
            assert(sink@ =~= s0 + self.encoding());
        }
        Ok(())
    }

    fn from_content(source: &mut Source) -> (r: Result<Self, StoreError>) {
        let ghost rem0 = source.remaining();
        match source.read_bytes(2) {
            Ok(b) => {
                let v: u16 = ((b[0] as u16) << 8) | (b[1] as u16);
                proof {
                    let b0 = b@[0];
                    let b1 = b@[1];
                    assert((v >> 8) as u8 == b0 && v as u8 == b1) by (bit_vector)
                        requires
                            v == ((b0 as u16) << 8) | (b1 as u16),
                    ;
                    assert(v.encoding() =~= rem0.take(2));
                }
                Ok(v)
            },
            Err(e) => {
                proof {
                    assert forall|v: u16| v.wf() implies !is_prefix(
                        #[trigger] v.encoding(),
                        rem0,
                    ) by {
                        assert(v.encoding().len() == 2);
                    }
                }
                Err(e)
            },
        }
    }
}

impl Content for u32 {
    open spec fn wf(&self) -> bool {
        true
    }

    open spec fn encoding(&self) -> Seq<u8> {
        be32(*self)
    }

    open spec fn injective() -> bool {
        true
    }

    proof fn lemma_prefix_free(v: Self, w: Self, r1: Seq<u8>, r2: Seq<u8>) {
        lemma_eq_len_prefixes(v.encoding(), w.encoding(), r1, r2);
    }

    proof fn lemma_injective(v: Self, w: Self) {
        assert forall|i: int| 0 <= i < 4 implies v.encoding()[i] == w.encoding()[i] by {}
        assert(((v >> 24) as u8 == (w >> 24) as u8 && (v >> 16) as u8 == (w >> 16) as u8
            && (v >> 8) as u8 == (w >> 8) as u8 && v as u8 == w as u8) ==> v == w)
            by (bit_vector);
    }

    fn to_content(&self, sink: &mut Sink) -> (r: Result<(), StoreError>) {
        let ghost s0 = sink@;
        sink.write_byte(#[verifier::truncate] ((*self >> 24) as u8));
        sink.write_byte(#[verifier::truncate] ((*self >> 16) as u8));
        sink.write_byte(#[verifier::truncate] ((*self >> 8) as u8));
        sink.write_byte(#[verifier::truncate] (*self as u8));
        proof {
            assert(sink@ =~= s0 + self.encoding());
        }
        Ok(())
    }

    fn from_content(source: &mut Source) -> (r: Result<Self, StoreError>) {
        let ghost rem0 = source.remaining();
        match source.read_bytes(4) {
            Ok(b) => {
                let v: u32 = ((b[0] as u32) << 24) | ((b[1] as u32) << 16)
                    | ((b[2] as u32) << 8) | (b[3] as u32);
                proof {
                    let b0 = b@[0];
                    let b1 = b@[1];
                    let b2 = b@[2];
                    let b3 = b@[3];
                    assert((v >> 24) as u8 == b0 && (v >> 16) as u8 == b1 && (v >> 8) as u8 == b2
                        && v as u8 == b3) by (bit_vector)
                        requires
                            v == ((b0 as u32) << 24) | ((b1 as u32) << 16) | ((b2 as u32) << 8)
                                | (b3 as u32),
                    ;
                    assert(v.encoding() =~= rem0.take(4));
                }
                Ok(v)
            },
            Err(e) => {
                proof {
                    assert forall|v: u32| v.wf() implies !is_prefix(
                        #[trigger] v.encoding(),
                        rem0,
                    ) by {
                        assert(v.encoding().len() == 4);
                    }
                }
                Err(e)
            },
        }
    }
}

impl Content for u64 {
    open spec fn wf(&self) -> bool {
        true
    }

    open spec fn encoding(&self) -> Seq<u8> {
        be64(*self)
    }

    open spec fn injective() -> bool {
        true
    }

    proof fn lemma_prefix_free(v: Self, w: Self, r1: Seq<u8>, r2: Seq<u8>) {
        lemma_eq_len_prefixes(v.encoding(), w.encoding(), r1, r2);
    }

    proof fn lemma_injective(v: Self, w: Self) {
        assert forall|i: int| 0 <= i < 8 implies v.encoding()[i] == w.encoding()[i] by {}
        assert(((v >> 56) as u8 == (w >> 56) as u8 && (v >> 48) as u8 == (w >> 48) as u8
            && (v >> 40) as u8 == (w >> 40) as u8 && (v >> 32) as u8 == (w >> 32) as u8
            && (v >> 24) as u8 == (w >> 24) as u8 && (v >> 16) as u8 == (w >> 16) as u8
            && (v >> 8) as u8 == (w >> 8) as u8 && v as u8 == w as u8) ==> v == w)
            by (bit_vector);
    }

    fn to_content(&self, sink: &mut Sink) -> (r: Result<(), StoreError>) {
        let ghost s0 = sink@;
        sink.write_byte(#[verifier::truncate] ((*self >> 56) as u8));
        sink.write_byte(#[verifier::truncate] ((*self >> 48) as u8));
        sink.write_byte(#[verifier::truncate] ((*self >> 40) as u8));
        sink.write_byte(#[verifier::truncate] ((*self >> 32) as u8));
        sink.write_byte(#[verifier::truncate] ((*self >> 24) as u8));
        sink.write_byte(#[verifier::truncate] ((*self >> 16) as u8));
        sink.write_byte(#[verifier::truncate] ((*self >> 8) as u8));
        sink.write_byte(#[verifier::truncate] (*self as u8));
        proof {
            assert(sink@ =~= s0 + self.encoding());
        }
        Ok(())
    }

    fn from_content(source: &mut Source) -> (r: Result<Self, StoreError>) {
        let ghost rem0 = source.remaining();
        match source.read_bytes(8) {
            Ok(b) => {
                let v: u64 = ((b[0] as u64) << 56) | ((b[1] as u64) << 48)
                    | ((b[2] as u64) << 40) | ((b[3] as u64) << 32) | ((b[4] as u64) << 24)
                    | ((b[5] as u64) << 16) | ((b[6] as u64) << 8) | (b[7] as u64);
                proof {
                    let b0 = b@[0];
                    let b1 = b@[1];
                    let b2 = b@[2];
                    let b3 = b@[3];
                    let b4 = b@[4];
                    let b5 = b@[5];
                    let b6 = b@[6];
                    let b7 = b@[7];
                    assert((v >> 56) as u8 == b0 && (v >> 48) as u8 == b1 && (v >> 40) as u8 == b2
                        && (v >> 32) as u8 == b3 && (v >> 24) as u8 == b4 && (v >> 16) as u8 == b5
                        && (v >> 8) as u8 == b6 && v as u8 == b7) by (bit_vector)
                        requires
                            v == ((b0 as u64) << 56) | ((b1 as u64) << 48) | ((b2 as u64) << 40)
                                | ((b3 as u64) << 32) | ((b4 as u64) << 24) | ((b5 as u64) << 16)
                                | ((b6 as u64) << 8) | (b7 as u64),
                    ;
                    assert(v.encoding() =~= rem0.take(8));
                }
                Ok(v)
            },
            Err(e) => {
                proof {
                    assert forall|v: u64| v.wf() implies !is_prefix(
                        #[trigger] v.encoding(),
                        rem0,
                    ) by {
                        assert(v.encoding().len() == 8);
                    }
                }
                Err(e)
            },
        }
    }
}

impl Content for i16 {
    open spec fn wf(&self) -> bool {
        true
    }

    open spec fn encoding(&self) -> Seq<u8> {
        be16(*self as u16)
    }

    open spec fn injective() -> bool {
        true
    }

    proof fn lemma_prefix_free(v: Self, w: Self, r1: Seq<u8>, r2: Seq<u8>) {
        lemma_eq_len_prefixes(v.encoding(), w.encoding(), r1, r2);
    }

    proof fn lemma_injective(v: Self, w: Self) {
        u16::lemma_injective(v as u16, w as u16);
        assert(v as u16 == w as u16 ==> v == w) by (bit_vector);
    }

    fn to_content(&self, sink: &mut Sink) -> (r: Result<(), StoreError>) {
        let bits: u16 = #[verifier::truncate] (*self as u16);
        bits.to_content(sink)
    }

    fn from_content(source: &mut Source) -> (r: Result<Self, StoreError>) {
        let ghost rem0 = source.remaining();
        match u16::from_content(source) {
            Ok(bits) => {
                let v: i16 = #[verifier::truncate] (bits as i16);
                proof {
                    assert((bits as i16) as u16 == bits) by (bit_vector);
                }
                Ok(v)
            },
            Err(e) => {
                proof {
                    assert forall|v: i16| v.wf() implies !is_prefix(
                        #[trigger] v.encoding(),
                        rem0,
                    ) by {
                        assert(!is_prefix((v as u16).encoding(), rem0));
                    }
                }
                Err(e)
            },
        }
    }
}

impl Content for i32 {
    open spec fn wf(&self) -> bool {
        true
    }

    open spec fn encoding(&self) -> Seq<u8> {
        be32(*self as u32)
    }

    open spec fn injective() -> bool {
        true
    }

    proof fn lemma_prefix_free(v: Self, w: Self, r1: Seq<u8>, r2: Seq<u8>) {
        lemma_eq_len_prefixes(v.encoding(), w.encoding(), r1, r2);
    }

    proof fn lemma_injective(v: Self, w: Self) {
        u32::lemma_injective(v as u32, w as u32);
        assert(v as u32 == w as u32 ==> v == w) by (bit_vector);
    }

    fn to_content(&self, sink: &mut Sink) -> (r: Result<(), StoreError>) {
        let bits: u32 = #[verifier::truncate] (*self as u32);
        bits.to_content(sink)
    }

    fn from_content(source: &mut Source) -> (r: Result<Self, StoreError>) {
        let ghost rem0 = source.remaining();
        match u32::from_content(source) {
            Ok(bits) => {
                let v: i32 = #[verifier::truncate] (bits as i32);
                proof {
                    assert((bits as i32) as u32 == bits) by (bit_vector);
                }
                Ok(v)
            },
            Err(e) => {
                proof {
                    assert forall|v: i32| v.wf() implies !is_prefix(
                        #[trigger] v.encoding(),
                        rem0,
                    ) by {
                        assert(!is_prefix((v as u32).encoding(), rem0));
                    }
                }
                Err(e)
            },
        }
    }
}

impl Content for i64 {
    open spec fn wf(&self) -> bool {
        true
    }

    open spec fn encoding(&self) -> Seq<u8> {
        be64(*self as u64)
    }

    open spec fn injective() -> bool {
        true
    }

    proof fn lemma_prefix_free(v: Self, w: Self, r1: Seq<u8>, r2: Seq<u8>) {
        lemma_eq_len_prefixes(v.encoding(), w.encoding(), r1, r2);
    }

    proof fn lemma_injective(v: Self, w: Self) {
        u64::lemma_injective(v as u64, w as u64);
        assert(v as u64 == w as u64 ==> v == w) by (bit_vector);
    }

    fn to_content(&self, sink: &mut Sink) -> (r: Result<(), StoreError>) {
        let bits: u64 = #[verifier::truncate] (*self as u64);
        bits.to_content(sink)
    }

    fn from_content(source: &mut Source) -> (r: Result<Self, StoreError>) {
        let ghost rem0 = source.remaining();
        match u64::from_content(source) {
            Ok(bits) => {
                let v: i64 = #[verifier::truncate] (bits as i64);
                proof {
                    assert((bits as i64) as u64 == bits) by (bit_vector);
                }
                Ok(v)
            },
            Err(e) => {
                proof {
                    assert forall|v: i64| v.wf() implies !is_prefix(
                        #[trigger] v.encoding(),
                        rem0,
                    ) by {
                        assert(!is_prefix((v as u64).encoding(), rem0));
                    }
                }
                Err(e)
            },
        }
    }
}

impl<T: Content> Content for Option<T> {
    open spec fn wf(&self) -> bool {
        match self {
            Option::None => true,
            Option::Some(x) => x.wf(),
        }
    }

    open spec fn encoding(&self) -> Seq<u8> {
        match self {
            Option::None => seq![0u8],
            Option::Some(x) => seq![1u8] + x.encoding(),
        }
    }

    open spec fn injective() -> bool {
        T::injective()
    }

    proof fn lemma_prefix_free(v: Self, w: Self, r1: Seq<u8>, r2: Seq<u8>) {
        match (v, w) {
            (Option::None, Option::None) => {},
            (Option::None, Option::Some(y)) => {
                assert((v.encoding() + r1)[0] == 0u8);
                assert(w.encoding()[0] == 1u8);
                assert((w.encoding() + r2)[0] == 1u8);
            },
            (Option::Some(x), Option::None) => {
                assert(v.encoding()[0] == 1u8);
                assert((v.encoding() + r1)[0] == 1u8);
                assert((w.encoding() + r2)[0] == 0u8);
            },
            (Option::Some(x), Option::Some(y)) => {
                assert(x.encoding() + r1 =~= ((seq![1u8] + x.encoding()) + r1).skip(1));
                assert(y.encoding() + r2 =~= ((seq![1u8] + y.encoding()) + r2).skip(1));
                T::lemma_prefix_free(x, y, r1, r2);
                assert(v.encoding() =~= w.encoding());
            },
        }
    }

    proof fn lemma_injective(v: Self, w: Self) {
        match (v, w) {
            (Option::None, Option::None) => {},
            (Option::None, Option::Some(y)) => {
                assert(v.encoding()[0] == 0u8);
                assert(w.encoding()[0] == 1u8);
            },
            (Option::Some(x), Option::None) => {
                assert(v.encoding()[0] == 1u8);
                assert(w.encoding()[0] == 0u8);
            },
            (Option::Some(x), Option::Some(y)) => {
                assert(x.encoding() =~= v.encoding().skip(1));
                assert(y.encoding() =~= w.encoding().skip(1));
                T::lemma_injective(x, y);
            },
        }
    }

    fn to_content(&self, sink: &mut Sink) -> (r: Result<(), StoreError>) {
        let ghost s0 = sink@;
        match self {
            Option::None => {
                sink.write_byte(0u8);
                proof {
                    assert(sink@ =~= s0 + self.encoding());
                }
                Ok(())
            },
            Option::Some(x) => {
                sink.write_byte(1u8);
                let res = x.to_content(sink);
                proof {
                    assert(sink@ =~= s0 + self.encoding());
                }
                res
            },
        }
    }

    fn from_content(source: &mut Source) -> (r: Result<Self, StoreError>) {
        let ghost rem0 = source.remaining();
        let tag: u8 = match source.read_byte() {
            Ok(t) => t,
            Err(e) => {
                proof {
                    assert forall|v: Option<T>| v.wf() implies !is_prefix(
                        #[trigger] v.encoding(),
                        rem0,
                    ) by {
                        match v {
                            Option::None => {
                                assert(v.encoding().len() == 1);
                            },
                            Option::Some(x) => {
                                assert(v.encoding().len() >= 1);
                            },
                        }
                    }
                }
                return Err(e);
            },
        };
        if tag == 0 {
            proof {
                assert(Option::<T>::None.encoding() =~= rem0.take(1));
            }
            Ok(Option::None)
        } else if tag == 1 {
            let ghost rem1 = source.remaining();
            proof {
                assert(rem1 =~= rem0.skip(1));
            }
            match T::from_content(source) {
                Ok(x) => {
                    let ghost xl = x.encoding().len() as int;
                    proof {
                        let enc = Option::Some(x).encoding();
                        assert(enc.len() == 1 + xl);
                        assert forall|i: int| 0 <= i < 1 + xl implies enc[i] == rem0.take(1 + xl)[i] by {
                            if i == 0 {
                                assert(enc[0] == 1u8);
                                assert(rem0[0] == tag);
                            } else {
                                assert(enc[i] == x.encoding()[i - 1]);
                                assert(x.encoding()[i - 1] == rem1.take(xl)[i - 1]);
                                assert(rem1.take(xl)[i - 1] == rem0[i]);
                            }
                        }
                        assert(Option::Some(x).encoding() =~= rem0.take(1 + xl));
                    }
                    Ok(Option::Some(x))
                },
                Err(e) => {
                    proof {
                        assert forall|v: Option<T>| v.wf() implies !is_prefix(
                            #[trigger] v.encoding(),
                            rem0,
                        ) by {
                            match v {
                                Option::None => {
                                    if is_prefix(v.encoding(), rem0) {
                                        assert(rem0.take(1)[0] == 0u8);
                                        assert(rem0[0] == tag);
                                    }
                                },
                                Option::Some(x2) => {
                                    if is_prefix(v.encoding(), rem0) {
                                        let xl2 = x2.encoding().len() as int;
                                        assert(rem0.take(1 + xl2) == seq![1u8] + x2.encoding());
                                        assert forall|i: int| 0 <= i < xl2 implies rem1.take(xl2)[i]
                                            == x2.encoding()[i] by {
                                            assert(rem1.take(xl2)[i] == rem0[1 + i]);
                                            assert(rem0.take(1 + xl2)[1 + i] == rem0[1 + i]);
                                            assert((seq![1u8] + x2.encoding())[1 + i]
                                                == x2.encoding()[i]);
                                        }
                                        assert(rem1.take(xl2) =~= x2.encoding());
                                        assert(is_prefix(x2.encoding(), rem1));
                                    }
                                },
                            }
                        }
                    }
                    Err(e)
                },
            }
        } else {
            proof {
                assert forall|v: Option<T>| v.wf() implies !is_prefix(
                    #[trigger] v.encoding(),
                    rem0,
                ) by {
                    if is_prefix(v.encoding(), rem0) {
                        match v {
                            Option::None => {
                                assert(rem0.take(1)[0] == 0u8);
                                assert(rem0[0] == tag);
                            },
                            Option::Some(x2) => {
                                let l = v.encoding().len() as int;
                                assert(rem0.take(l)[0] == v.encoding()[0]);
                                assert(v.encoding()[0] == 1u8);
                                assert(rem0[0] == tag);
                            },
                        }
                    }
                }
            }
            Err(StoreError::InvalidTag)
        }
    }
}

// A heap indirection passes the readers and writers of its target through
// unchanged, so a boxed value and the value itself share one canonical byte
// form and therefore one digest: indirection is invisible on the wire.
impl<T: Content> Content for Box<T> {
    open spec fn wf(&self) -> bool {
        (**self).wf()
    }

    open spec fn encoding(&self) -> Seq<u8> {
        (**self).encoding()
    }

    open spec fn injective() -> bool {
        T::injective()
    }

    proof fn lemma_prefix_free(v: Self, w: Self, r1: Seq<u8>, r2: Seq<u8>) {
        T::lemma_prefix_free(*v, *w, r1, r2);
    }

    proof fn lemma_injective(v: Self, w: Self) {
        T::lemma_injective(*v, *w);
    }

    fn to_content(&self, sink: &mut Sink) -> (r: Result<(), StoreError>) {
        (&**self).to_content(sink)
    }

    fn from_content(source: &mut Source) -> (r: Result<Self, StoreError>) {
        let ghost rem0 = source.remaining();
        match T::from_content(source) {
            Ok(x) => Ok(Box::new(x)),
            Err(e) => {
                proof {
                    assert forall|v: Box<T>| v.wf() implies !is_prefix(
                        #[trigger] v.encoding(),
                        rem0,
                    ) by {
                        assert(!is_prefix((*v).encoding(), rem0));
                    }
                }
                Err(e)
            },
        }
    }
}

impl Content for () {
    open spec fn wf(&self) -> bool {
        true
    }

    open spec fn encoding(&self) -> Seq<u8> {
        Seq::<u8>::empty()
    }

    open spec fn injective() -> bool {
        true
    }

    proof fn lemma_prefix_free(v: Self, w: Self, r1: Seq<u8>, r2: Seq<u8>) {
    }

    proof fn lemma_injective(v: Self, w: Self) {
    }

    fn to_content(&self, sink: &mut Sink) -> (r: Result<(), StoreError>) {
        proof {
            assert(sink@ =~= sink@ + self.encoding());
        }
        Ok(())
    }

    fn from_content(source: &mut Source) -> (r: Result<Self, StoreError>) {
        let ghost rem0 = source.remaining();
        proof {
            assert(().encoding() =~= rem0.take(0));
        }
        Ok(())
    }
}

} // verus!
