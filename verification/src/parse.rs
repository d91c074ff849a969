pub mod font_directory;
pub mod primitives;

use vstd::prelude::*;
use vstd::seq_lib::*;
use vstd::slice::slice_subrange;
use core::cmp::Ordering;
use core::marker::PhantomData;

verus! {

/// Decoding protocol for fixed-size values stored in a font file.
///
/// `spec_size` gives the number of bytes one encoded value occupies and
/// `parsed` says which decoded value the leading `spec_size` bytes of a
/// buffer denote.  `parsed` must depend on those leading bytes alone and
/// must determine the value; the two proof obligations state that.
pub trait Parse: Sized {
    /// Number of bytes one encoded value of this type occupies.
    spec fn spec_size() -> nat;

    /// Whether the first `spec_size` bytes of `data` decode to `v`.
    spec fn parsed(data: Seq<u8>, v: Self) -> bool;

    /// `parsed` reads only the first `spec_size` bytes of its data.
    proof fn parsed_prefix_only(d1: Seq<u8>, d2: Seq<u8>, v: Self)
        requires
            Self::spec_size() <= d1.len(),
            Self::spec_size() <= d2.len(),
            d1.subrange(0, Self::spec_size() as int) == d2.subrange(0, Self::spec_size() as int),
            Self::parsed(d1, v),
        ensures
            Self::parsed(d2, v),
    ;

    /// Encodings occupy at least one byte.
    proof fn size_positive()
        ensures
            0 < Self::spec_size(),
    ;

    /// A run of bytes decodes to at most one value.
    proof fn parsed_unique(data: Seq<u8>, v1: Self, v2: Self)
        requires
            Self::parsed(data, v1),
            Self::parsed(data, v2),
        ensures
            v1 == v2,
    ;

    /// Runtime size of one encoded value.
    fn approx_file_size() -> (r: usize)
        ensures
            r == Self::spec_size(),
            0 < r,
    ;

    /// Decode one value from the front of `buf`, returning the rest of the
    /// buffer and the value.  The caller must supply a buffer that holds at
    /// least one whole encoding.
    fn parse<'a>(buf: &'a [u8]) -> (r: (&'a [u8], Self))
        requires
            Self::spec_size() <= buf@.len(),
        ensures
            r.0@ == buf@.subrange(Self::spec_size() as int, buf@.len() as int),
            Self::parsed(buf@, r.1),
    ;
}

/// Buffers that agree on their first `n` bytes agree at each of those
/// byte positions.
pub proof fn lemma_prefix_bytes_equal(d1: Seq<u8>, d2: Seq<u8>, n: int)
    requires
        0 <= n <= d1.len(),
        n <= d2.len(),
        d1.subrange(0, n) == d2.subrange(0, n),
    ensures
        forall|i: int| 0 <= i < n ==> d1[i] == d2[i],
{
    assert forall|i: int| 0 <= i < n implies d1[i] == d2[i] by {
        assert(d1.subrange(0, n)[i] == d1[i]);
        assert(d2.subrange(0, n)[i] == d2[i]);
        assert(d1.subrange(0, n)[i] == d2.subrange(0, n)[i]);
    }
}

/// Decoding a value from a buffer of exactly `spec_size` bytes consumes the
/// whole buffer: the remainder that `parse` returns is empty.
pub proof fn lemma_parse_exact_consumes_all<T: Parse>(buf: Seq<u8>, rest: Seq<u8>)
    requires
        buf.len() == T::spec_size(),
        rest == buf.subrange(T::spec_size() as int, buf.len() as int),
    ensures
        rest.len() == 0,
{
}

/// Split `buf` in front of its `len * T::spec_size()`-th byte: the prefix
/// holds `len` whole encodings of `T` and the rest follows.
pub fn split_buf_for_len<'a, T: Parse>(buf: &'a [u8], len: usize) -> (r: (&'a [u8], &'a [u8]))
    requires
        len * T::spec_size() <= buf@.len(),
    ensures
        r.0@ == buf@.subrange(0, len * T::spec_size()),
        r.1@ == buf@.skip(len * T::spec_size()),
{
    let size = T::approx_file_size();
    let n = buf.len();
    let idx = len * size;
    let before = slice_subrange(buf, 0, idx);
    let after = slice_subrange(buf, idx, n);
    proof {
        assert(after@ == buf@.skip(len * T::spec_size()));
    }
    (before, after)
}

/// A typed view of a byte range whose extent is not declared by the type:
/// the range may run to the end of the file.  Random access decodes the
/// element at a byte offset computed from the index.
#[derive(Debug)]
pub struct BufView<'a, T>(pub &'a [u8], pub PhantomData<T>);

impl<'a, T> Clone for BufView<'a, T> {
    fn clone(&self) -> (r: Self)
        ensures
            r.0 == self.0,
    {
        BufView(self.0, PhantomData)
    }
}

impl<'a, T> Copy for BufView<'a, T> {

}

impl<'a, T: Parse> BufView<'a, T> {
    /// The raw bytes under this view.
    pub open spec fn bytes(self) -> Seq<u8> {
        self.0@
    }

    /// The bytes from element index `i` on.
    pub open spec fn elem_tail(self, i: int) -> Seq<u8> {
        self.bytes().skip(i * T::spec_size())
    }

    /// Byte `j` of the tail at element `i` is byte `i * size + j` of the
    /// whole view.
    pub proof fn lemma_elem_tail_index(self, i: int, j: int)
        requires
            0 <= i,
            i * T::spec_size() + T::spec_size() <= self.bytes().len(),
            0 <= j < T::spec_size(),
        ensures
            self.elem_tail(i)[j] == self.bytes()[i * T::spec_size() + j],
    {
        T::size_positive();
        assert(0 <= i * T::spec_size() as int) by (nonlinear_arith)
            requires
                0 <= i,
                0 <= T::spec_size(),
        ;
    }

    /// Decode element `idx`.  The view must reach past that element.
    pub fn at(&self, idx: usize) -> (r: T)
        requires
            idx * T::spec_size() + T::spec_size() <= self.bytes().len(),
        ensures
            T::parsed(self.elem_tail(idx as int), r),
    {
        let size = T::approx_file_size();
        let n = self.0.len();
        let sized_idx = idx * size;
        let sub = slice_subrange(self.0, sized_idx, n);
        T::parse(sub).1
    }

    /// Split in front of element `idx`.
    pub fn split_at(&self, idx: usize) -> (r: (BufView<'a, T>, BufView<'a, T>))
        requires
            idx * T::spec_size() <= self.bytes().len(),
        ensures
            r.0.bytes() == self.bytes().subrange(0, idx * T::spec_size()),
            r.1.bytes() == self.bytes().skip(idx * T::spec_size()),
    {
        let size = T::approx_file_size();
        let n = self.0.len();
        let sized_idx = idx * size;
        let before = slice_subrange(self.0, 0, sized_idx);
        let after = slice_subrange(self.0, sized_idx, n);
        proof {
            assert(after@ == self.bytes().skip(idx * T::spec_size()));
        }
        (BufView(before, PhantomData), BufView(after, PhantomData))
    }

    /// Reinterpret the same bytes as a view of another element type.
    pub fn cast<U>(&self) -> (r: BufView<'a, U>)
        ensures
            r.0 == self.0,
    {
        BufView(self.0, PhantomData)
    }
}

/// A typed view of a byte range known to hold whole contiguous encodings
/// of `T`: its element count is the byte length over the element size.
#[derive(Debug)]
pub struct DynArr<'a, T>(pub &'a [u8], pub PhantomData<T>);

impl<'a, T> Clone for DynArr<'a, T> {
    fn clone(&self) -> (r: Self)
        ensures
            r.0 == self.0,
    {
        DynArr(self.0, PhantomData)
    }
}

impl<'a, T> Copy for DynArr<'a, T> {

}

impl<'a, T: Parse> DynArr<'a, T> {
    /// The raw bytes under this view.
    pub open spec fn bytes(self) -> Seq<u8> {
        self.0@
    }

    /// The view covers whole elements only.
    pub open spec fn wf(self) -> bool {
        self.bytes().len() as int % T::spec_size() as int == 0
    }

    /// Number of whole elements in the view.
    pub open spec fn spec_len(self) -> nat {
        self.bytes().len() / T::spec_size()
    }

    /// The bytes from element index `i` on.
    pub open spec fn elem_tail(self, i: int) -> Seq<u8> {
        self.bytes().skip(i * T::spec_size())
    }

    /// Byte `j` of the tail at element `i` is byte `i * size + j` of the
    /// whole view.
    pub proof fn lemma_elem_tail_index(self, i: int, j: int)
        requires
            0 <= i < self.spec_len(),
            0 <= j < T::spec_size(),
        ensures
            self.elem_tail(i)[j] == self.bytes()[i * T::spec_size() + j],
    {
        T::size_positive();
        lemma_index_within::<T>(self.bytes().len() as nat, i as nat);
        assert(0 <= i * T::spec_size() as int) by (nonlinear_arith)
            requires
                0 <= i,
                0 <= T::spec_size(),
        ;
    }

    pub fn len(&self) -> (r: usize)
        ensures
            r == self.spec_len(),
    {
        self.0.len() / T::approx_file_size()
    }

    /// A restartable traversal is just a copy of the view.
    pub fn iter(&self) -> (r: DynArr<'a, T>)
        ensures
            r.0 == self.0,
    {
        *self
    }

    /// Decode element `idx` without touching any other element.
    pub fn at(&self, idx: usize) -> (r: T)
        requires
            idx < self.spec_len(),
        ensures
            T::parsed(self.elem_tail(idx as int), r),
    {
        let size = T::approx_file_size();
        let n = self.0.len();
        proof {
            lemma_index_within::<T>(self.bytes().len() as nat, idx as nat);
        }
        let sized_idx = idx * size;
        let sub = slice_subrange(self.0, sized_idx, n);
        T::parse(sub).1
    }

    /// Split in front of element `idx`: the parts hold the first `idx`
    /// elements and the remaining ones.
    pub fn split_at(&self, idx: usize) -> (r: (DynArr<'a, T>, DynArr<'a, T>))
        requires
            idx <= self.spec_len(),
        ensures
            r.0.bytes() == self.bytes().subrange(0, idx * T::spec_size()),
            r.1.bytes() == self.bytes().skip(idx * T::spec_size()),
            r.0.spec_len() == idx,
            self.wf() ==> r.1.spec_len() == self.spec_len() - idx,
    {
        let size = T::approx_file_size();
        let n = self.0.len();
        proof {
            lemma_prefix_within::<T>(self.bytes().len() as nat, idx as nat);
        }
        let sized_idx = idx * size;
        let before = slice_subrange(self.0, 0, sized_idx);
        let after = slice_subrange(self.0, sized_idx, n);
        proof {
            assert(after@ == self.bytes().skip(idx * T::spec_size()));
            lemma_split_lens::<T>(self.bytes().len() as nat, idx as nat, self.wf());
        }
        (DynArr(before, PhantomData), DynArr(after, PhantomData))
    }

    /// Whether `cmp` classifies this view's elements monotonically: once an
    /// element compares `Less` every earlier one does, and once one compares
    /// `Greater` every later one does.  Holds when the elements are sorted
    /// in the order that `cmp` searches by.
    pub open spec fn search_monotone(self, cmp: spec_fn(T) -> Ordering) -> bool {
        forall|i: int, j: int, u: T, v: T|
            0 <= i <= j < self.spec_len() && T::parsed(self.elem_tail(i), u) && T::parsed(
                self.elem_tail(j),
                v,
            ) ==> ((cmp(u) == Ordering::Greater ==> cmp(v) == Ordering::Greater) && (cmp(v)
                == Ordering::Less ==> cmp(u) == Ordering::Less))
    }

    /// Binary search by a comparator that tells for each element whether it
    /// lies before, at, or past the target.  Any returned element compares
    /// equal; when the comparator is monotone over the view, a `None` means
    /// no element compares equal.
    pub fn binary_search_by<F: Fn(&T) -> Ordering>(
        &self,
        f: F,
        Ghost(cmp): Ghost<spec_fn(T) -> Ordering>,
    ) -> (r: Option<T>)
        requires
            self.wf(),
            forall|t: &T| #[trigger] f.requires((t,)),
            forall|t: &T, o: Ordering| f.ensures((t,), o) ==> o == cmp(*t),
        ensures
            r is Some ==> exists|i: int|
                0 <= i < self.spec_len() && T::parsed(#[trigger] self.elem_tail(i), r.unwrap())
                    && cmp(r.unwrap()) == Ordering::Equal,
            self.search_monotone(cmp) && r is None ==> forall|i: int, v: T|
                0 <= i < self.spec_len() && #[trigger] T::parsed(self.elem_tail(i), v) ==> cmp(v)
                    != Ordering::Equal,
    {
        let ghost mono = self.search_monotone(cmp);
        let ghost hit_somewhere = exists|i: int, v: T|
            0 <= i < self.spec_len() && #[trigger] T::parsed(self.elem_tail(i), v) && cmp(v)
                == Ordering::Equal;
        let mut size = self.len();
        if size == 0 {
            return None;
        }
        let mut left: usize = 0;
        while size > 1
            invariant
                1 <= size,
                left + size <= self.spec_len(),
                self.spec_len() <= usize::MAX,
                self.wf(),
                forall|t: &T| #[trigger] f.requires((t,)),
                forall|t: &T, o: Ordering| f.ensures((t,), o) ==> o == cmp(*t),
                mono == self.search_monotone(cmp),
                mono && hit_somewhere ==> exists|i: int, v: T|
                    left <= i < left + size && #[trigger] T::parsed(self.elem_tail(i), v) && cmp(v)
                        == Ordering::Equal,
            decreases size,
        {
            let half = size / 2;
            let mid = left + half;
            let e = self.at(mid);
            let c = f(&e);
            proof {
                if mono && hit_somewhere {
                    let (i0, v0) = choose|i0: int, v0: T|
                        left <= i0 < left + size && #[trigger] T::parsed(self.elem_tail(i0), v0)
                            && cmp(v0) == Ordering::Equal;
                    if c == Ordering::Greater {
                        if i0 >= mid {
                            assert(cmp(v0) == Ordering::Greater);  // against its being Equal
                        }
                        assert(left <= i0 < left + (size - half) && T::parsed(
                            self.elem_tail(i0),
                            v0,
                        ) && cmp(v0) == Ordering::Equal);
                    } else if c == Ordering::Less {
                        if i0 < mid {
                            assert(cmp(v0) == Ordering::Less);  // against its being Equal
                        }
                        assert(mid <= i0 < mid + (size - half) && T::parsed(self.elem_tail(i0), v0)
                            && cmp(v0) == Ordering::Equal);
                    } else {
                        assert(mid <= mid < mid + (size - half) && T::parsed(self.elem_tail(mid as int), e)
                            && cmp(e) == Ordering::Equal);
                    }
                }
            }
            left = if matches!(c, Ordering::Greater) {
                left
            } else {
                mid
            };
            size = size - half;
        }
        let found_item = self.at(left);
        let c = f(&found_item);
        if matches!(c, Ordering::Equal) {
            Some(found_item)
        } else {
            proof {
                if mono {
                    assert forall|i: int, v: T|
                        0 <= i < self.spec_len() && #[trigger] T::parsed(
                            self.elem_tail(i),
                            v,
                        ) implies cmp(v) != Ordering::Equal by {
                        if cmp(v) == Ordering::Equal {
                            let (i0, v0) = choose|i0: int, v0: T|
                                left <= i0 < left + 1 && #[trigger] T::parsed(
                                    self.elem_tail(i0),
                                    v0,
                                ) && cmp(v0) == Ordering::Equal;
                            T::parsed_unique(self.elem_tail(left as int), v0, found_item);
                        }
                    }
                }
            }
            None
        }
    }
}

/// Splitting a view in front of element `k` partitions it: the parts have
/// `k` and `len - k` elements, their bytes concatenate to the original's,
/// and each element of a part decodes exactly as the corresponding element
/// of the original.
pub proof fn lemma_split_at_partition<'a, T: Parse>(
    arr: DynArr<'a, T>,
    k: nat,
    left: DynArr<'a, T>,
    right: DynArr<'a, T>,
)
    requires
        arr.wf(),
        k <= arr.spec_len(),
        left.bytes() == arr.bytes().subrange(0, (k * T::spec_size()) as int),
        right.bytes() == arr.bytes().skip((k * T::spec_size()) as int),
    ensures
        left.spec_len() == k,
        right.spec_len() == arr.spec_len() - k,
        left.bytes() + right.bytes() == arr.bytes(),
        forall|i: int, v: T|
            0 <= i < k ==> (#[trigger] T::parsed(left.elem_tail(i), v) <==> T::parsed(
                arr.elem_tail(i),
                v,
            )),
        forall|i: int, v: T|
            0 <= i < arr.spec_len() - k ==> (#[trigger] T::parsed(right.elem_tail(i), v)
                <==> T::parsed(arr.elem_tail(k + i), v)),
{
    let s = T::spec_size() as int;
    let n = arr.bytes().len() as int;
    T::size_positive();
    lemma_prefix_within::<T>(arr.bytes().len() as nat, k);
    lemma_split_lens::<T>(arr.bytes().len() as nat, k, true);
    assert(left.bytes() + right.bytes() =~= arr.bytes());
    assert forall|i: int, v: T| 0 <= i < k implies (#[trigger] T::parsed(left.elem_tail(i), v)
        <==> T::parsed(arr.elem_tail(i), v)) by {
        lemma_tails_share_prefix::<T>(arr, k, left, right, i);
        if T::parsed(left.elem_tail(i), v) {
            T::parsed_prefix_only(left.elem_tail(i), arr.elem_tail(i), v);
        }
        if T::parsed(arr.elem_tail(i), v) {
            T::parsed_prefix_only(arr.elem_tail(i), left.elem_tail(i), v);
        }
    }
    assert forall|i: int, v: T| 0 <= i < arr.spec_len() - k implies (#[trigger] T::parsed(right.elem_tail(i), v) <==> T::parsed(arr.elem_tail(k + i), v)) by {
        lemma_index_within::<T>(right.bytes().len() as nat, i as nat);
        assert(0 <= i * s) by (nonlinear_arith)
            requires
                0 <= i,
                0 < s,
        ;
        assert((k + i) * s == k * s + i * s) by (nonlinear_arith);
        assert(right.elem_tail(i) =~= arr.elem_tail(k + i)) by {
            assert forall|j: int| 0 <= j < right.elem_tail(i).len() implies right.elem_tail(i)[j]
                == arr.elem_tail(k + i)[j] by {
                assert(right.elem_tail(i)[j] == right.bytes()[i * s + j]);
                assert(right.bytes()[i * s + j] == arr.bytes()[k * s + (i * s + j)]);
                assert(arr.elem_tail(k + i)[j] == arr.bytes()[(k + i) * s + j]);
            }
        }
    }
}

/// `idx < len / size` puts the whole element `idx` inside the first `len`
/// bytes.
proof fn lemma_index_within<T: Parse>(len: nat, idx: nat)
    requires
        idx < len / T::spec_size(),
        0 < T::spec_size(),
    ensures
        idx * T::spec_size() + T::spec_size() <= len,
{
    let s = T::spec_size();
    assert(idx * s + s <= (len / s) * s <= len) by (nonlinear_arith)
        requires
            idx + 1 <= len / s,
            0 < s,
    ;
}

/// `idx <= len / size` puts the first `idx` elements inside the first
/// `len` bytes.
proof fn lemma_prefix_within<T: Parse>(len: nat, idx: nat)
    requires
        idx <= len / T::spec_size(),
        0 < T::spec_size(),
    ensures
        idx * T::spec_size() <= len,
{
    let s = T::spec_size();
    assert(idx * s <= (len / s) * s <= len) by (nonlinear_arith)
        requires
            idx <= len / s,
            0 < s,
    ;
}

/// Element counts of the two byte ranges that a split yields.
proof fn lemma_split_lens<T: Parse>(len: nat, idx: nat, divisible: bool)
    requires
        idx <= len / T::spec_size(),
        0 < T::spec_size(),
        divisible ==> len % T::spec_size() == 0,
    ensures
        (idx * T::spec_size()) as nat / T::spec_size() == idx,
        divisible ==> (len - idx * T::spec_size()) as nat / T::spec_size() == len / T::spec_size()
            - idx,
        divisible ==> (len - idx * T::spec_size()) as nat % T::spec_size() == 0,
{
    let s = T::spec_size();
    lemma_prefix_within::<T>(len, idx);
    assert((idx * s) as nat / s == idx) by (nonlinear_arith)
        requires
            0 < s,
    ;
    if divisible {
        assert((len - idx * s) as nat / s == len / s - idx && (len - idx * s) as nat % s == 0)
            by (nonlinear_arith)
            requires
                0 < s,
                len % s == 0,
                idx * s <= len,
                (idx * s) as nat / s == idx,
        ;
    }
}

/// The first element of each part of a split reads the same bytes as the
/// corresponding element of the original view.
proof fn lemma_tails_share_prefix<'a, T: Parse>(
    arr: DynArr<'a, T>,
    k: nat,
    left: DynArr<'a, T>,
    right: DynArr<'a, T>,
    i: int,
)
    requires
        arr.wf(),
        k <= arr.spec_len(),
        left.bytes() == arr.bytes().subrange(0, (k * T::spec_size()) as int),
        0 <= i < k,
    ensures
        T::spec_size() <= left.elem_tail(i).len(),
        T::spec_size() <= arr.elem_tail(i).len(),
        left.elem_tail(i).subrange(0, T::spec_size() as int) == arr.elem_tail(i).subrange(
            0,
            T::spec_size() as int,
        ),
{
    let s = T::spec_size() as int;
    T::size_positive();
    lemma_prefix_within::<T>(arr.bytes().len() as nat, k);
    assert(i * s + s <= k * s) by (nonlinear_arith)
        requires
            i < k,
            0 < s,
    ;
    assert(0 <= i * s) by (nonlinear_arith)
        requires
            0 <= i,
            0 < s,
    ;
    assert(left.elem_tail(i).subrange(0, s) =~= arr.elem_tail(i).subrange(0, s));
}

} // verus!
