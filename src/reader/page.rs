use vstd::prelude::*;

use core::cmp::Ordering;
use core::marker::PhantomData;

use crate::decode::DecodeFromHeap;
use crate::reader::Error;

verus! {

/// Where an outcome of a key comparison ranks: `Less` before `Equal`
/// before `Greater`.
pub open spec fn rank(o: Ordering) -> int {
    match o {
        Ordering::Less => 0,
        Ordering::Equal => 1,
        Ordering::Greater => 2,
    }
}

/// `f` compares the entries of `entries` with a key in order: an entry
/// never ranks below itself or one that comes before it.
pub open spec fn ordered_by<T, C, F: Fn(&T, &C) -> Ordering>(
    entries: Seq<T>,
    context: &C,
    f: F,
) -> bool {
    forall|i: int, j: int, a: Ordering, b: Ordering|
        0 <= i <= j < entries.len() && #[trigger] f.ensures((&entries[i], context), a)
            && #[trigger] f.ensures((&entries[j], context), b) ==> rank(a) <= rank(b)
}

/// `f` may be called on every entry of `entries`.
pub open spec fn callable_on<T, C, F: Fn(&T, &C) -> Ordering>(
    entries: Seq<T>,
    context: &C,
    f: F,
) -> bool {
    forall|i: int| 0 <= i < entries.len() ==> #[trigger] f.requires((&entries[i], context))
}

/// Some entry of `entries` matches the key.
pub open spec fn has_match<T, C, F: Fn(&T, &C) -> Ordering>(
    entries: Seq<T>,
    context: &C,
    f: F,
) -> bool {
    exists|i: int| 0 <= i < entries.len() && #[trigger] f.ensures((&entries[i], context), Ordering::Equal)
}

/// `n` records decoded one after the other from the front of `bytes`, their
/// stubs read from `heap`, with the number of bytes they take, or the first
/// error met.
pub open spec fn decode_records<C, T: DecodeFromHeap<C>>(
    bytes: Seq<u8>,
    context: C,
    heap: Seq<u8>,
    n: nat,
) -> Result<(Seq<T::V>, nat), Error>
    decreases n,
{
    if n == 0 {
        Ok((Seq::empty(), 0))
    } else {
        match T::spec_decode_from_heap(bytes, context, heap) {
            Err(e) => Err(e),
            Ok((v, k)) => match decode_records::<C, T>(bytes.skip(k as int), context, heap, (n - 1) as nat) {
                Err(e) => Err(e),
                Ok((vs, m)) => Ok((seq![v] + vs, k + m)),
            },
        }
    }
}

/// The models of the values of `s`.
pub open spec fn deep_seq<T: DeepView>(s: Seq<T>) -> Seq<T::V> {
    Seq::new(s.len(), |i: int| s[i].deep_view())
}

/// The decoded records of one page.
pub struct Page<T> {
    entries: Vec<T>,
}

impl<T> View for Page<T> {
    type V = Seq<T>;

    closed spec fn view(&self) -> Seq<T> {
        self.entries@
    }
}

impl<T> Page<T> {
    pub fn new() -> (r: Page<T>)
        ensures
            r@ == Seq::<T>::empty(),
    {
        Page { entries: Vec::new() }
    }

    pub fn len(&self) -> (r: usize)
        ensures
            r == self@.len(),
    {
        self.entries.len()
    }

    pub fn get(&self, i: u32) -> (r: Option<&T>)
        ensures
            i < self@.len() ==> r == Some(&self@[i as int]),
            i >= self@.len() ==> r is None,
    {
        if (i as usize) < self.entries.len() {
            Some(&self.entries[i as usize])
        } else {
            None
        }
    }

    /// The entries, in order.
    pub fn iter(&self) -> (r: &[T])
        ensures
            r@ == self@,
    {
        self.entries.as_slice()
    }

    pub fn push(&mut self, entry: T)
        ensures
            final(self)@ == old(self)@.push(entry),
    {
        self.entries.push(entry)
    }

    /// Decodes `entry_count` records from the front of `input`, following
    /// their stubs into `heap`, and appends them.
    pub fn decode_entries<C>(&mut self, input: &[u8], entry_count: u32, context: &C, heap: &[u8]) -> (r:
        Result<(), Error>)
        where
            T: DecodeFromHeap<C>,
        ensures
            match decode_records::<C, T>(input@, *context, heap@, entry_count as nat) {
                Ok((vs, n)) => r is Ok && deep_seq(final(self)@) == deep_seq(old(self)@) + vs,
                Err(e) => r == Err::<(), Error>(e),
            },
    {
        let ghost start = deep_seq(self@);
        let mut p: usize = 0;
        let mut i: u32 = 0;
        proof {
            assert(input@.skip(0) =~= input@);
            assert(deep_seq(self@).skip(start.len() as int) =~= Seq::<T::V>::empty());
            match decode_records::<C, T>(input@, *context, heap@, entry_count as nat) {
                Ok((vs, m)) => {
                    assert(Seq::<T::V>::empty() + vs =~= vs);
                },
                Err(e) => {},
            }
        }
        while i < entry_count
            invariant
                i <= entry_count,
                p <= input@.len(),
                deep_seq(self@).len() == start.len() + i,
                decode_records::<C, T>(input@, *context, heap@, entry_count as nat) == match decode_records::<
                    C,
                    T,
                >(input@.skip(p as int), *context, heap@, (entry_count - i) as nat) {
                    Err(e) => Err(e),
                    Ok((vs, m)) => Ok::<(Seq<T::V>, nat), Error>((deep_seq(self@).skip(start.len() as int) + vs, (p + m) as nat)),
                },
                deep_seq(self@).take(start.len() as int) == start,
            decreases entry_count - i,
        {
            match T::decode_from_heap(input, p, context, heap) {
                Ok((v, after)) => {
                    let ghost before = self@;
                    proof {
                        assert(input@.skip(p as int).skip(after - p) =~= input@.skip(after as int));
                    }
                    self.entries.push(v);
                    proof {
                        assert(deep_seq(self@) =~= deep_seq(before).push(v.deep_view()));
                        assert(deep_seq(self@).take(start.len() as int) =~= deep_seq(before).take(start.len() as int));
                        assert(deep_seq(self@).skip(start.len() as int) =~= deep_seq(before).skip(start.len() as int).push(v.deep_view()));
                        let rest = decode_records::<C, T>(input@.skip(after as int), *context, heap@, (entry_count - i - 1) as nat);
                        match rest {
                            Ok((vs, m)) => {
                                assert(deep_seq(before).skip(start.len() as int) + (seq![v.deep_view()] + vs)
                                    =~= deep_seq(self@).skip(start.len() as int) + vs);
                            },
                            Err(e) => {},
                        }
                    }
                    p = after;
                    i = i + 1;
                },
                Err(e) => {
                    assert(decode_records::<C, T>(input@.skip(p as int), *context, heap@, (entry_count - i) as nat)
                        == Err::<(Seq<T::V>, nat), Error>(e));
                    return Err(e);
                },
            }
        }
        proof {
            assert(deep_seq(self@).skip(start.len() as int) + Seq::<T::V>::empty() =~= deep_seq(self@).skip(start.len() as int));
            assert(deep_seq(self@) =~= start + deep_seq(self@).skip(start.len() as int));
        }
        Ok(())
    }

    pub fn clear(&mut self)
        ensures
            final(self)@ == Seq::<T>::empty(),
    {
        self.entries.clear()
    }

    /// Looks for the entry that `f` finds equal to the key. `Ok` gives its
    /// index; `Err(Greater)` says that the first entry is already past the
    /// key, `Err(Less)` that the last entry is still before it, and
    /// `Err(Equal)` that the page is empty or brackets the key without
    /// holding it.
    pub fn binary_search_by_key<C, F: Fn(&T, &C) -> Ordering>(&self, context: &C, f: F) -> (r:
        Result<u32, Ordering>)
        requires
            callable_on(self@, context, f),
            self@.len() <= u32::MAX,
        ensures
            match r {
                Ok(i) => i < self@.len() && f.ensures((&self@[i as int], context), Ordering::Equal),
                Err(Ordering::Greater) => self@.len() > 0 && f.ensures(
                    (&self@[0], context),
                    Ordering::Greater,
                ),
                Err(Ordering::Less) => self@.len() > 0 && f.ensures(
                    (&self@[self@.len() - 1], context),
                    Ordering::Less,
                ),
                Err(Ordering::Equal) => self@.len() == 0 || (ordered_by(self@, context, f) ==> {
                    &&& !has_match(self@, context, f)
                    &&& f.ensures((&self@[0], context), Ordering::Less)
                    &&& f.ensures((&self@[self@.len() - 1], context), Ordering::Greater)
                }),
            },
            ordered_by(self@, context, f) ==> (r is Ok <==> has_match(self@, context, f)),
    {
        let len = self.entries.len();
        if len == 0 {
            return Err(Ordering::Equal);
        }
        let first = f(&self.entries[0], context);
        if let Ordering::Greater = first {
            proof {
                if ordered_by(self@, context, f) && has_match(self@, context, f) {
                    let k = choose|k: int| 0 <= k < self@.len() && #[trigger] f.ensures((&self@[k], context), Ordering::Equal);
                    assert(f.ensures((&self@[0], context), Ordering::Greater));
                    assert(rank(Ordering::Greater) <= rank(Ordering::Equal));
                }
            }
            return Err(Ordering::Greater);
        }
        let last = f(&self.entries[len - 1], context);
        if let Ordering::Less = last {
            proof {
                if ordered_by(self@, context, f) && has_match(self@, context, f) {
                    let k = choose|k: int| 0 <= k < self@.len() && #[trigger] f.ensures((&self@[k], context), Ordering::Equal);
                    assert(f.ensures((&self@[len - 1], context), Ordering::Less));
                    assert(rank(Ordering::Equal) <= rank(Ordering::Less));
                }
            }
            return Err(Ordering::Less);
        }
        let mut lo: usize = 0;
        let mut hi: usize = len;
        while lo < hi
            invariant
                len == self@.len(),
                len <= u32::MAX,
                0 <= lo <= hi <= len,
                callable_on(self@, context, f),
                f.ensures((&self@[0], context), first),
                f.ensures((&self@[len - 1], context), last),
                first != Ordering::Greater,
                last != Ordering::Less,
                ordered_by(self@, context, f) ==> forall|k: int|
                    0 <= k < len && (k < lo || k >= hi) ==> !#[trigger] f.ensures(
                        (&self@[k], context),
                        Ordering::Equal,
                    ),
            decreases hi - lo,
        {
            let mid = lo + (hi - lo) / 2;
            let o = f(&self.entries[mid], context);
            match o {
                Ordering::Equal => {
                    return Ok(mid as u32);
                },
                Ordering::Less => {
                    proof {
                        if ordered_by(self@, context, f) {
                            assert forall|k: int|
                                0 <= k < len && (k < mid + 1 || k >= hi) implies !#[trigger] f.ensures(
                                (&self@[k], context),
                                Ordering::Equal,
                            ) by {
                                if k <= mid && k >= lo {
                                    if f.ensures((&self@[k], context), Ordering::Equal) {
                                        assert(f.ensures((&self@[mid as int], context), Ordering::Less));
                                        assert(rank(Ordering::Equal) <= rank(Ordering::Less));
                                    }
                                }
                            }
                        }
                    }
                    lo = mid + 1;
                },
                Ordering::Greater => {
                    proof {
                        if ordered_by(self@, context, f) {
                            assert forall|k: int|
                                0 <= k < len && (k < lo || k >= mid) implies !#[trigger] f.ensures(
                                (&self@[k], context),
                                Ordering::Equal,
                            ) by {
                                if k >= mid && k < hi {
                                    if f.ensures((&self@[k], context), Ordering::Equal) {
                                        assert(f.ensures((&self@[mid as int], context), Ordering::Greater));
                                        assert(rank(Ordering::Greater) <= rank(Ordering::Equal));
                                    }
                                }
                            }
                        }
                    }
                    hi = mid;
                },
            }
        }
        proof {
            if ordered_by(self@, context, f) {
                assert(!has_match(self@, context, f));
                assert(first != Ordering::Equal);
                assert(last != Ordering::Equal);
            }
        }
        Err(Ordering::Equal)
    }
}

/// Projects a page on one of its entries.
pub struct GetEntryBinder<T> {
    index: u32,
    t: PhantomData<T>,
}

impl<T> GetEntryBinder<T> {
    pub fn new(index: u32) -> (r: GetEntryBinder<T>)
        ensures
            r.spec_index() == index,
    {
        GetEntryBinder { index, t: PhantomData }
    }

    pub closed spec fn spec_index(&self) -> nat {
        self.index as nat
    }

    /// The entry of `page` that this binder names.
    pub fn bind(self, page: &Page<T>) -> (r: &T)
        requires
            self.spec_index() < page@.len(),
        ensures
            *r == page@[self.spec_index() as int],
    {
        &page.entries[self.index as usize]
    }
}

/// Projects a page on the sequence of its entries.
pub struct IterBinder<T>(PhantomData<T>);

impl<T> IterBinder<T> {
    pub fn new() -> (r: IterBinder<T>) {
        IterBinder(PhantomData)
    }

    /// The entries of `page`, in order.
    pub fn bind(self, page: &Page<T>) -> (r: &[T])
        ensures
            r@ == page@,
    {
        page.iter()
    }
}

} // verus!
