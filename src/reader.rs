use vstd::prelude::*;

pub mod page;

pub use page::Page;

use core::cmp::Ordering;
use page::{callable_on, has_match, ordered_by, rank};

verus! {

/// Why a read of paged data failed.
#[derive(Debug, Clone, Copy, PartialEq, Eq, Structural)]
pub enum Error {
    /// The bytes do not spell a value: an unknown discriminant, text that is
    /// not UTF-8, or a heap reference that leaves its heap section.
    InvalidData,
    /// The bytes end before the value does.
    UnexpectedEof,
    /// The page cache has no free slot left.
    OutOfMemory,
}

/// An iterator whose steps take a context, such as one that decodes what
/// it yields.
pub trait ContextualIterator<C> {
    type Item;

    fn next_with(&mut self, context: &mut C) -> Option<Self::Item>;
}

/// The pages that may still hold the key: those from `min` up to, not
/// including, `max`.
#[derive(Debug, Clone, Copy, PartialEq, Eq, Structural)]
pub struct Bisection {
    pub min: u32,
    pub max: u32,
}

impl Bisection {
    /// A search over the `page_count` pages of a section.
    pub fn new(page_count: u32) -> (r: Bisection)
        ensures
            r == (Bisection { min: 0, max: page_count }),
    {
        Bisection { min: 0, max: page_count }
    }

    /// The page to search next: the middle one of those left, or `None`
    /// where none is left.
    pub fn next_page(&self) -> (r: Option<u32>)
        ensures
            self.min < self.max ==> r == Some((self.min + (self.max - self.min) / 2) as u32),
            self.min >= self.max ==> r is None,
    {
        if self.min < self.max {
            Some(self.min + (self.max - self.min) / 2)
        } else {
            None
        }
    }

    /// Takes in that the search of page `page` found no match, with the
    /// `Ordering` it gave: `Greater` rules out that page and the later
    /// ones, `Less` that page and the earlier ones, `Equal` all pages.
    pub fn update(&mut self, page: u32, outcome: Ordering)
        requires
            old(self).min <= page < old(self).max,
        ensures
            outcome == Ordering::Greater ==> *final(self) == (Bisection {
                min: old(self).min,
                max: page,
            }),
            outcome == Ordering::Less ==> *final(self) == (Bisection {
                min: (page + 1) as u32,
                max: old(self).max,
            }),
            outcome == Ordering::Equal ==> *final(self) == (Bisection {
                min: old(self).max,
                max: old(self).max,
            }),
    {
        match outcome {
            Ordering::Greater => {
                self.max = page;
            },
            Ordering::Less => {
                self.min = page + 1;
            },
            Ordering::Equal => {
                self.min = self.max;
            },
        }
    }
}

/// `f` compares the records of `pages`, page after page, with a key in
/// order: a record never ranks below itself or one that comes before it.
pub open spec fn pages_ordered<T, C, F: Fn(&T, &C) -> Ordering>(
    pages: Seq<Page<T>>,
    context: &C,
    f: F,
) -> bool {
    forall|p: int, i: int, q: int, j: int, a: Ordering, b: Ordering|
        0 <= p <= q < pages.len() && 0 <= i < pages[p]@.len() && 0 <= j < pages[q]@.len() && (p
            < q || i <= j) && #[trigger] f.ensures((&pages[p]@[i], context), a)
            && #[trigger] f.ensures((&pages[q]@[j], context), b) ==> rank(a) <= rank(b)
}

/// The record at `(page, index)` matches the key.
pub open spec fn matches_at<T, C, F: Fn(&T, &C) -> Ordering>(
    pages: Seq<Page<T>>,
    context: &C,
    f: F,
    page: int,
    index: int,
) -> bool {
    &&& 0 <= page < pages.len()
    &&& 0 <= index < pages[page]@.len()
    &&& f.ensures((&pages[page]@[index], context), Ordering::Equal)
}

/// Searches the pages of a section for the record that `f` finds equal to
/// the key, one page at a time, halving the pages left each time. Gives
/// the page and the index in it of what it found.
pub fn binary_search_pages<T, C, F: Fn(&T, &C) -> Ordering + Copy>(
    pages: &[Page<T>],
    context: &C,
    f: F,
) -> (r: Option<(u32, u32)>)
    requires
        pages@.len() <= u32::MAX,
        forall|p: int|
            0 <= p < pages@.len() ==> callable_on(#[trigger] pages@[p]@, context, f) && pages@[p]@.len()
                <= u32::MAX,
    ensures
        match r {
            Some((p, i)) => matches_at(pages@, context, f, p as int, i as int),
            None => true,
        },
        pages_ordered(pages@, context, f) && (forall|p: int|
            0 <= p < pages@.len() ==> #[trigger] pages@[p]@.len() > 0) ==> (r is Some <==> exists|
            p: int,
            i: int,
        | matches_at(pages@, context, f, p, i)),
{
    let ghost ps = pages@;
    let mut state = Bisection::new(pages.len() as u32);
    loop
        invariant
            ps == pages@,
            pages@.len() <= u32::MAX,
            state.min <= state.max <= pages@.len() || state.min == state.max,
            state.max <= pages@.len(),
            forall|p: int|
                0 <= p < pages@.len() ==> callable_on(#[trigger] pages@[p]@, context, f) && pages@[p]@.len()
                    <= u32::MAX,
            pages_ordered(ps, context, f) && (forall|p: int|
                0 <= p < ps.len() ==> #[trigger] ps[p]@.len() > 0) ==> forall|p: int, i: int|
                (p < state.min || p >= state.max) ==> !#[trigger] matches_at(ps, context, f, p, i),
        decreases state.max - state.min,
    {
        let page_index = match state.next_page() {
            Some(m) => m,
            None => {
                return None;
            },
        };
        let page = &pages[page_index as usize];
        let ghost m = page_index as int;
        proof {
            if pages_ordered(ps, context, f) {
                assert forall|i: int, j: int, a: Ordering, b: Ordering|
                    0 <= i <= j < page@.len() && #[trigger] f.ensures((&page@[i], context), a)
                        && #[trigger] f.ensures((&page@[j], context), b) implies rank(a) <= rank(b) by {
                    assert(ps[m]@ == page@);
                }
            }
        }
        match page.binary_search_by_key(context, f) {
            Ok(i) => {
                assert(matches_at(ps, context, f, m, i as int));
                return Some((page_index, i));
            },
            Err(o) => {
                let ghost old_state = state;
                proof {
                    let ordered = pages_ordered(ps, context, f) && (forall|p: int|
                        0 <= p < ps.len() ==> #[trigger] ps[p]@.len() > 0);
                    if ordered {
                        let last = ps[m]@.len() - 1;
                        assert(ps[m]@.len() > 0);
                        assert forall|p: int, i: int|
                            matches_at(ps, context, f, p, i) implies !(match o {
                                Ordering::Greater => p >= m,
                                Ordering::Less => p <= m,
                                Ordering::Equal => true,
                            }) by {
                            assert(f.ensures((&ps[p]@[i], context), Ordering::Equal));
                            match o {
                                Ordering::Greater => {
                                    assert(f.ensures((&ps[m]@[0], context), Ordering::Greater));
                                    assert(rank(Ordering::Greater) > rank(Ordering::Equal));
                                },
                                Ordering::Less => {
                                    assert(f.ensures((&ps[m]@[last], context), Ordering::Less));
                                    assert(rank(Ordering::Equal) > rank(Ordering::Less));
                                },
                                Ordering::Equal => {
                                    assert(f.ensures((&ps[m]@[0], context), Ordering::Less));
                                    assert(f.ensures((&ps[m]@[last], context), Ordering::Greater));
                                    if p == m {
                                        assert(has_match(page@, context, f));
                                    }
                                },
                            }
                        }
                    }
                }
                state.update(page_index, o);
            },
        }
    }
}

} // verus!
