use crate::bigint::{lemma_bigint_nat_injective, lemma_serialized_value, serialized,
    CamlBigInteger256};
use vstd::arithmetic::div_mod::{lemma_mod_is_zero, lemma_mod_sub_multiples_vanish};
use vstd::arithmetic::mul::{
    lemma_mul_equality_converse, lemma_mul_is_distributive_add_other_way,
};
use vstd::bytes::{
    lemma_auto_spec_u32_to_from_le_bytes, spec_u32_from_le_bytes, spec_u32_to_le_bytes,
    u32_from_le_bytes, u32_to_le_bytes,
};
use vstd::prelude::*;
use vstd::slice::{slice_subrange, slice_to_vec};

verus! {

/// A fixed-size binary-encodable element type: every element flattens to the
/// same number of bytes, and distinct elements flatten to distinct bytes.
pub trait FlatVectorElem: Sized {
    /// The fixed number of bytes one element flattens to.
    spec fn flat_size() -> nat;

    /// The flattened bytes of this element.
    spec fn flat_spec(self) -> Seq<u8>;

    /// Every element flattens to exactly `flat_size()` bytes.
    proof fn lemma_flat_size(self)
        ensures
            self.flat_spec().len() == Self::flat_size(),
    ;

    /// No two distinct elements flatten to the same bytes.
    proof fn lemma_flat_injective(a: Self, b: Self)
        ensures
            a.flat_spec() == b.flat_spec() ==> a == b,
    ;

    /// The fixed flattened size, as executable code.
    fn flattened_size() -> (r: usize)
        ensures
            r == Self::flat_size(),
    ;

    /// Encodes one element as its flattened bytes.
    fn flatten(self) -> (r: Vec<u8>)
        ensures
            r@ == self.flat_spec(),
    ;

    /// Restores the element a flattened chunk encodes.
    fn unflatten(flat: Vec<u8>) -> (r: Self)
        requires
            flat@.len() == Self::flat_size(),
        ensures
            r.flat_spec() == flat@,
    ;
}

/// The flattened bytes of a whole element sequence: each element's bytes in
/// order, with no header and no padding.
pub open spec fn pack_spec<T: FlatVectorElem>(s: Seq<T>) -> Seq<u8>
    decreases s.len(),
{
    if s.len() == 0 {
        Seq::empty()
    } else {
        s[0].flat_spec() + pack_spec(s.skip(1))
    }
}

/// Packing n elements gives n times the element size in bytes.
pub proof fn lemma_pack_spec_len<T: FlatVectorElem>(s: Seq<T>)
    ensures
        pack_spec(s).len() == s.len() * T::flat_size(),
    decreases s.len(),
{
    if s.len() > 0 {
        s[0].lemma_flat_size();
        lemma_pack_spec_len::<T>(s.skip(1));
        lemma_mul_is_distributive_add_other_way(T::flat_size() as int, 1, s.len() - 1);
    }
}

/// Appending an element appends its flattened bytes.
pub proof fn lemma_pack_spec_push<T: FlatVectorElem>(s: Seq<T>, x: T)
    ensures
        pack_spec(s.push(x)) == pack_spec(s) + x.flat_spec(),
    decreases s.len(),
{
    if s.len() == 0 {
        assert(s.push(x).skip(1) =~= s);
        assert(s.push(x)[0] == x);
        assert(pack_spec(s.push(x)) =~= pack_spec(s) + x.flat_spec());
    } else {
        lemma_pack_spec_push(s.skip(1), x);
        assert(s.push(x).skip(1) =~= s.skip(1).push(x));
        assert(pack_spec(s.push(x)) =~= pack_spec(s) + x.flat_spec());
    }
}

/// Law: packing is one-to-one, so unpacking what was packed restores the
/// elements exactly.
pub proof fn lemma_pack_spec_injective<T: FlatVectorElem>(a: Seq<T>, b: Seq<T>)
    requires
        T::flat_size() > 0,
        pack_spec(a) == pack_spec(b),
    ensures
        a == b,
    decreases a.len(),
{
    let sz = T::flat_size() as int;
    lemma_pack_spec_len(a);
    lemma_pack_spec_len(b);
    lemma_mul_equality_converse(sz, a.len() as int, b.len() as int);
    if a.len() == 0 {
        assert(a =~= b);
    } else {
        a[0].lemma_flat_size();
        b[0].lemma_flat_size();
        assert(a[0].flat_spec() =~= pack_spec(a).subrange(0, sz));
        assert(b[0].flat_spec() =~= pack_spec(b).subrange(0, sz));
        T::lemma_flat_injective(a[0], b[0]);
        assert(pack_spec(a.skip(1)) =~= pack_spec(a).subrange(sz, pack_spec(a).len() as int));
        assert(pack_spec(b.skip(1)) =~= pack_spec(b).subrange(sz, pack_spec(b).len() as int));
        lemma_pack_spec_injective(a.skip(1), b.skip(1));
        assert forall|i: int| 0 <= i < a.len() implies a[i] == b[i] by {
            if i > 0 {
                assert(a[i] == a.skip(1)[i - 1]);
                assert(b[i] == b.skip(1)[i - 1]);
            }
        }
        assert(a =~= b);
    }
}

/// An ordered sequence of fixed-size-encodable elements, marshalled to and
/// from one contiguous byte buffer.
pub struct WasmFlatVector<T>(Vec<T>);

impl<T> View for WasmFlatVector<T> {
    type V = Seq<T>;

    closed spec fn view(&self) -> Seq<T> {
        self.0@
    }
}

impl<T> WasmFlatVector<T> {
    /// Wraps an in-memory sequence of elements.
    pub fn from_vec(v: Vec<T>) -> (r: Self)
        ensures
            r@ == v@,
    {
        WasmFlatVector(v)
    }

    /// Hands the elements back out.
    pub fn into_vec(self) -> (r: Vec<T>)
        ensures
            r@ == self@,
    {
        self.0
    }

    /// The number of elements.
    pub fn len(&self) -> (r: usize)
        ensures
            r == self@.len(),
    {
        self.0.len()
    }

    /// A borrow of the element at index i.
    pub fn get(&self, i: usize) -> (r: &T)
        requires
            i < self@.len(),
        ensures
            *r == self@[i as int],
    {
        &self.0[i]
    }
}

impl<T: FlatVectorElem> WasmFlatVector<T> {
    /// Unpacks a byte buffer into its elements: the buffer is chunked into
    /// consecutive fixed-size windows, each restored in order. The buffer
    /// length must be an exact multiple of the element size; any other length
    /// is a boundary-protocol violation, not user input.
    pub fn from_bytes(data: Vec<u8>) -> (r: Self)
        requires
            T::flat_size() > 0,
            data@.len() % T::flat_size() == 0,
        ensures
            pack_spec(r@) == data@,
            r@.len() * T::flat_size() == data@.len(),
    {
        let sz = T::flattened_size();
        let mut res: Vec<T> = Vec::new();
        let mut i: usize = 0;
        proof {
            assert(data@.subrange(0, 0) =~= Seq::<u8>::empty());
        }
        while i < data.len()
            invariant
                sz == T::flat_size(),
                sz > 0,
                i <= data@.len(),
                (data@.len() - i) % (sz as int) == 0,
                pack_spec(res@) == data@.subrange(0, i as int),
                res@.len() * T::flat_size() == i,
            decreases data@.len() - i,
        {
            proof {
                lemma_mod_is_zero((data@.len() - i) as nat, sz as nat);
            }
            let chunk = slice_to_vec(slice_subrange(data.as_slice(), i, i + sz));
            let elem = T::unflatten(chunk);
            let ghost prev = res@;
            res.push(elem);
            proof {
                lemma_pack_spec_push(prev, elem);
                assert(pack_spec(res@) =~= data@.subrange(0, (i + sz) as int));
                lemma_mod_sub_multiples_vanish((data@.len() - i) as int, sz as int);
                lemma_mul_is_distributive_add_other_way(sz as int, prev.len() as int, 1);
            }
            i = i + sz;
        }
        proof {
            assert(data@.subrange(0, data@.len() as int) =~= data@);
        }
        WasmFlatVector(res)
    }

    /// Packs the elements into one byte buffer by flattening each in order
    /// and concatenating the results.
    pub fn into_bytes(self) -> (r: Vec<u8>)
        ensures
            r@ == pack_spec(self@),
    {
        let mut v = self.0;
        let ghost orig = v@;
        let ghost mut done: Seq<T> = Seq::empty();
        let mut data: Vec<u8> = Vec::new();
        while v.len() > 0
            invariant
                orig == done + v@,
                data@ == pack_spec(done),
            decreases v@.len(),
        {
            let x = v.remove(0);
            let mut f = x.flatten();
            data.append(&mut f);
            proof {
                lemma_pack_spec_push(done, x);
                done = done.push(x);
                assert(orig =~= done + v@);
            }
        }
        proof {
            assert(orig =~= done);
        }
        data
    }
}

/// A 32-bit word is fixed-size encodable as its four little-endian bytes.
impl FlatVectorElem for u32 {
    open spec fn flat_size() -> nat {
        4
    }

    open spec fn flat_spec(self) -> Seq<u8> {
        spec_u32_to_le_bytes(self)
    }

    proof fn lemma_flat_size(self) {
        lemma_auto_spec_u32_to_from_le_bytes();
    }

    proof fn lemma_flat_injective(a: Self, b: Self) {
        lemma_auto_spec_u32_to_from_le_bytes();
        if a.flat_spec() == b.flat_spec() {
            assert(a.flat_spec() == spec_u32_to_le_bytes(a));
            assert(b.flat_spec() == spec_u32_to_le_bytes(b));
            assert(spec_u32_from_le_bytes(spec_u32_to_le_bytes(a)) == a);
            assert(spec_u32_from_le_bytes(spec_u32_to_le_bytes(b)) == b);
            assert(spec_u32_from_le_bytes(spec_u32_to_le_bytes(a)) == spec_u32_from_le_bytes(
                spec_u32_to_le_bytes(b),
            ));
        }
    }

    fn flattened_size() -> (r: usize) {
        4
    }

    fn flatten(self) -> (r: Vec<u8>) {
        u32_to_le_bytes(self)
    }

    fn unflatten(flat: Vec<u8>) -> (r: Self) {
        proof {
            lemma_auto_spec_u32_to_from_le_bytes();
        }
        u32_from_le_bytes(flat.as_slice())
    }
}

/// The fixed-width integer is fixed-size encodable as its canonical 32-byte
/// buffer.
impl FlatVectorElem for CamlBigInteger256 {
    open spec fn flat_size() -> nat {
        32
    }

    open spec fn flat_spec(self) -> Seq<u8> {
        serialized(self)
    }

    proof fn lemma_flat_size(self) {
        lemma_serialized_value(self);
    }

    proof fn lemma_flat_injective(a: Self, b: Self) {
        if a.flat_spec() == b.flat_spec() {
            lemma_serialized_value(a);
            lemma_serialized_value(b);
            lemma_bigint_nat_injective(a, b);
        }
    }

    fn flattened_size() -> (r: usize) {
        32
    }

    fn flatten(self) -> (r: Vec<u8>) {
        self.to_bytes()
    }

    fn unflatten(flat: Vec<u8>) -> (r: Self) {
        match CamlBigInteger256::of_bytes(flat.as_slice()) {
            Ok(v) => v,
            Err(_) => CamlBigInteger256([0, 0, 0, 0]),
        }
    }
}

} // verus!
