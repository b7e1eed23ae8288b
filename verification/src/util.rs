//! Searching for several conditions at once, a settable point in time, and comparing bytes.

use vstd::prelude::*;
#[allow(unused_imports)]
use vstd::std_specs::iter::IteratorSpec;

verus! {

/// Several conditions on items of one type, each of which is to be met by some item.
pub trait MultiFind<Item>: Sized {
    /// One flag per condition.
    type Output;

    /// Every condition can be asked of every item.
    spec fn callable(&self) -> bool;

    /// `found` answers each condition for `items`: a set flag means that the condition
    /// holds of one of them, a clear flag that it fails for all of them.
    spec fn answers(&self, items: Seq<Item>, found: Self::Output) -> bool;

    /// The number of clear flags.
    spec fn missing(found: Self::Output) -> nat;

    /// Once every flag is set, further items change nothing.
    proof fn complete_is_stable(&self, items: Seq<Item>, more: Seq<Item>, found: Self::Output)
        requires
            self.answers(items, found),
            Self::missing(found) == 0,
        ensures
            self.answers(items + more, found),
    ;

    /// All flags clear, and their number.
    fn init() -> (r: (Self::Output, usize))
        ensures
            Self::missing(r.0) == r.1,
            forall|m: Self| #[trigger] m.answers(Seq::empty(), r.0),
    ;

    /// Asks the conditions that are still open of one more item.
    fn check(&self, item: &Item, found: &mut Self::Output, remaining: &mut usize)
        requires
            self.callable(),
            Self::missing(*old(found)) == *old(remaining),
        ensures
            Self::missing(*final(found)) == *final(remaining),
            forall|items: Seq<Item>|
                self.answers(items, *old(found)) ==> #[trigger] self.answers(
                    items.push(*item),
                    *final(found),
                ),
    ;
}

/// One flag answers one condition for `items`.
pub open spec fn flag_answers<Item, F: Fn(&Item) -> bool>(
    f: F,
    items: Seq<Item>,
    flag: bool,
) -> bool {
    if flag {
        exists|i: int| 0 <= i < items.len() && call_ensures(f, (&#[trigger] items[i],), true)
    } else {
        forall|i: int| 0 <= i < items.len() ==> call_ensures(f, (&#[trigger] items[i],), false)
    }
}

/// The condition can be asked of every item.
pub open spec fn asks_all<Item, F: Fn(&Item) -> bool>(f: F) -> bool {
    forall|x: &Item| call_requires(f, (x,))
}

/// One for a clear flag.
pub open spec fn clear_count(flag: bool) -> nat {
    if flag {
        0
    } else {
        1
    }
}

proof fn lemma_flag_kept<Item, F: Fn(&Item) -> bool>(f: F, items: Seq<Item>, more: Seq<Item>)
    requires
        flag_answers(f, items, true),
    ensures
        flag_answers(f, items + more, true),
{
    let i = choose|i: int| 0 <= i < items.len() && call_ensures(f, (&#[trigger] items[i],), true);
    assert((items + more)[i] == items[i]);
}

/// Asks one open condition of one more item.
fn check_flag<Item, F: Fn(&Item) -> bool>(f: &F, item: &Item, flag: bool) -> (r: bool)
    requires
        asks_all::<Item, F>(*f),
    ensures
        flag ==> r,
        forall|items: Seq<Item>|
            flag_answers(*f, items, flag) ==> #[trigger] flag_answers(*f, items.push(*item), r),
{
    if flag {
        proof {
            assert forall|items: Seq<Item>| flag_answers(*f, items, flag) implies
                #[trigger] flag_answers(*f, items.push(*item), true) by {
                lemma_flag_kept(*f, items, seq![*item]);
                assert(items + seq![*item] =~= items.push(*item));
            }
        }
        true
    } else {
        let r = f(item);
        proof {
            assert forall|items: Seq<Item>| flag_answers(*f, items, flag) implies
                #[trigger] flag_answers(*f, items.push(*item), r) by {
                let next = items.push(*item);
                assert(next[items.len() as int] == *item);
                assert forall|i: int| !r && 0 <= i < next.len() implies call_ensures(
                    *f,
                    (&#[trigger] next[i],),
                    false,
                ) by {
                    if i < items.len() {
                        assert(next[i] == items[i]);
                    }
                }
            }
        }
        r
    }
}

impl<
    Item,
    F0: Fn(&Item) -> bool,
    F1: Fn(&Item) -> bool,
> MultiFind<Item> for (F0, F1) {
    type Output = (bool, bool);

    open spec fn callable(&self) -> bool {
        &&& asks_all::<Item, F0>(self.0)
        &&& asks_all::<Item, F1>(self.1)
    }

    open spec fn answers(&self, items: Seq<Item>, found: Self::Output) -> bool {
        &&& flag_answers(self.0, items, found.0)
        &&& flag_answers(self.1, items, found.1)
    }

    open spec fn missing(found: Self::Output) -> nat {
        clear_count(found.0) + clear_count(found.1)
    }

    proof fn complete_is_stable(&self, items: Seq<Item>, more: Seq<Item>, found: Self::Output) {
        lemma_flag_kept(self.0, items, more);
        lemma_flag_kept(self.1, items, more);
    }

    fn init() -> (r: (Self::Output, usize)) {
        ((false, false), 2)
    }

    fn check(&self, item: &Item, found: &mut Self::Output, remaining: &mut usize) {
        let next = (
            check_flag(&self.0, item, found.0),
            check_flag(&self.1, item, found.1),
        );
        if next.0 && !found.0 {
            *remaining = *remaining - 1;
        }
        if next.1 && !found.1 {
            *remaining = *remaining - 1;
        }
        *found = next;
    }
}

impl<
    Item,
    F0: Fn(&Item) -> bool,
    F1: Fn(&Item) -> bool,
    F2: Fn(&Item) -> bool,
> MultiFind<Item> for (F0, F1, F2) {
    type Output = (bool, bool, bool);

    open spec fn callable(&self) -> bool {
        &&& asks_all::<Item, F0>(self.0)
        &&& asks_all::<Item, F1>(self.1)
        &&& asks_all::<Item, F2>(self.2)
    }

    open spec fn answers(&self, items: Seq<Item>, found: Self::Output) -> bool {
        &&& flag_answers(self.0, items, found.0)
        &&& flag_answers(self.1, items, found.1)
        &&& flag_answers(self.2, items, found.2)
    }

    open spec fn missing(found: Self::Output) -> nat {
        clear_count(found.0) + clear_count(found.1) + clear_count(found.2)
    }

    proof fn complete_is_stable(&self, items: Seq<Item>, more: Seq<Item>, found: Self::Output) {
        lemma_flag_kept(self.0, items, more);
        lemma_flag_kept(self.1, items, more);
        lemma_flag_kept(self.2, items, more);
    }

    fn init() -> (r: (Self::Output, usize)) {
        ((false, false, false), 3)
    }

    fn check(&self, item: &Item, found: &mut Self::Output, remaining: &mut usize) {
        let next = (
            check_flag(&self.0, item, found.0),
            check_flag(&self.1, item, found.1),
            check_flag(&self.2, item, found.2),
        );
        if next.0 && !found.0 {
            *remaining = *remaining - 1;
        }
        if next.1 && !found.1 {
            *remaining = *remaining - 1;
        }
        if next.2 && !found.2 {
            *remaining = *remaining - 1;
        }
        *found = next;
    }
}

impl<
    Item,
    F0: Fn(&Item) -> bool,
    F1: Fn(&Item) -> bool,
    F2: Fn(&Item) -> bool,
    F3: Fn(&Item) -> bool,
> MultiFind<Item> for (F0, F1, F2, F3) {
    type Output = (bool, bool, bool, bool);

    open spec fn callable(&self) -> bool {
        &&& asks_all::<Item, F0>(self.0)
        &&& asks_all::<Item, F1>(self.1)
        &&& asks_all::<Item, F2>(self.2)
        &&& asks_all::<Item, F3>(self.3)
    }

    open spec fn answers(&self, items: Seq<Item>, found: Self::Output) -> bool {
        &&& flag_answers(self.0, items, found.0)
        &&& flag_answers(self.1, items, found.1)
        &&& flag_answers(self.2, items, found.2)
        &&& flag_answers(self.3, items, found.3)
    }

    open spec fn missing(found: Self::Output) -> nat {
        clear_count(found.0) + clear_count(found.1) + clear_count(found.2) + clear_count(found.3)
    }

    proof fn complete_is_stable(&self, items: Seq<Item>, more: Seq<Item>, found: Self::Output) {
        lemma_flag_kept(self.0, items, more);
        lemma_flag_kept(self.1, items, more);
        lemma_flag_kept(self.2, items, more);
        lemma_flag_kept(self.3, items, more);
    }

    fn init() -> (r: (Self::Output, usize)) {
        ((false, false, false, false), 4)
    }

    fn check(&self, item: &Item, found: &mut Self::Output, remaining: &mut usize) {
        let next = (
            check_flag(&self.0, item, found.0),
            check_flag(&self.1, item, found.1),
            check_flag(&self.2, item, found.2),
            check_flag(&self.3, item, found.3),
        );
        if next.0 && !found.0 {
            *remaining = *remaining - 1;
        }
        if next.1 && !found.1 {
            *remaining = *remaining - 1;
        }
        if next.2 && !found.2 {
            *remaining = *remaining - 1;
        }
        if next.3 && !found.3 {
            *remaining = *remaining - 1;
        }
        *found = next;
    }
}

/// Searching the items of an iterator.
pub trait IteratorExt: Iterator + Sized {
    /// Which of the conditions some item meets. Stops as soon as all of them are met.
    fn find_conditions<M: MultiFind<Self::Item>>(self, conditions: M) -> (found: M::Output)
        requires
            conditions.callable(),
            self.obeys_prophetic_iter_laws(),
            self.decrease() is Some,
        ensures
            conditions.answers(self.remaining(), found),
    ;
}

impl<I: Iterator> IteratorExt for I {
    fn find_conditions<M: MultiFind<Self::Item>>(self, conditions: M) -> (found: M::Output) {
        let mut iter = self;
        let (mut found, mut remaining) = M::init();
        let ghost mut seen: Seq<Self::Item> = Seq::empty();
        assert(seen + iter.remaining() =~= self.remaining());
        loop
            invariant
                conditions.callable(),
                iter.obeys_prophetic_iter_laws(),
                iter.decrease() is Some,
                M::missing(found) == remaining,
                conditions.answers(seen, found),
                seen + iter.remaining() == self.remaining(),
            decreases iter.decrease()->0,
        {
            if remaining == 0 {
                proof {
                    conditions.complete_is_stable(seen, iter.remaining(), found);
                }
                return found;
            }
            let ghost before = iter.remaining();
            match iter.next() {
                Some(item) => {
                    conditions.check(&item, &mut found, &mut remaining);
                    proof {
                        assert(before.first() == item);
                        assert(seen.push(item) + before.drop_first() =~= seen + before);
                        seen = seen.push(item);
                    }
                },
                None => {
                    assert(seen + before =~= seen);
                    return found;
                },
            }
        }
    }
}

/// Which of four conditions some item of an iterator meets.
pub fn find_four<
    I: Iterator,
    F0: Fn(&I::Item) -> bool,
    F1: Fn(&I::Item) -> bool,
    F2: Fn(&I::Item) -> bool,
    F3: Fn(&I::Item) -> bool,
>(iter: I, conditions: (F0, F1, F2, F3)) -> (found: (bool, bool, bool, bool))
    requires
        asks_all::<I::Item, F0>(conditions.0),
        asks_all::<I::Item, F1>(conditions.1),
        asks_all::<I::Item, F2>(conditions.2),
        asks_all::<I::Item, F3>(conditions.3),
        iter.obeys_prophetic_iter_laws(),
        iter.decrease() is Some,
    ensures
        flag_answers(conditions.0, iter.remaining(), found.0),
        flag_answers(conditions.1, iter.remaining(), found.1),
        flag_answers(conditions.2, iter.remaining(), found.2),
        flag_answers(conditions.3, iter.remaining(), found.3),
{
    iter.find_conditions(conditions)
}


/// One more than the largest offset that an [`AtomicInstant`] can hold, in nanoseconds.
pub const OFFSET_RANGE: u128 = 0x1_0000_0000_0000_0000;

/// A point in time that is kept as an offset from the point at which it was made.
///
/// Points in time are nanoseconds on one clock that never runs backwards.
#[derive(Debug)]
pub struct AtomicInstant {
    anchor: u128,
    offset_ns: u64,
}

impl AtomicInstant {
    /// The point at which it was made.
    pub closed spec fn anchor(self) -> u128 {
        self.anchor
    }

    /// The point in time that it holds.
    pub closed spec fn view(&self) -> int {
        self.anchor + self.offset_ns
    }

    /// What it holds is never before the anchor and can always be written down.
    pub open spec fn wf(self) -> bool {
        &&& self.anchor() + OFFSET_RANGE <= u128::MAX
        &&& self.anchor() <= self@ < self.anchor() + OFFSET_RANGE
    }

    /// Holds `now`, for good the earliest point that it can hold.
    pub fn new(now: u128) -> (r: Self)
        requires
            now + OFFSET_RANGE <= u128::MAX,
        ensures
            r.wf(),
            r.anchor() == now,
            r@ == now,
    {
        Self { anchor: now, offset_ns: 0 }
    }

    /// Sets the point in time. One before the anchor counts as the anchor, and an offset of
    /// more than 64 bits loses its upper part. Any other point is read back as it was stored.
    pub fn store(&mut self, instant: u128)
        requires
            old(self).wf(),
        ensures
            final(self).wf(),
            final(self).anchor() == old(self).anchor(),
            final(self)@ == (if instant >= old(self).anchor() {
                old(self).anchor() + (instant - old(self).anchor()) % OFFSET_RANGE as int
            } else {
                old(self).anchor() as int
            }),
            old(self).anchor() <= instant < old(self).anchor() + OFFSET_RANGE ==> final(self)@
                == instant,
    {
        if instant >= self.anchor {
            let duration: u128 = instant - self.anchor;
            self.offset_ns = (duration % OFFSET_RANGE) as u64;
        } else {
            self.offset_ns = 0;
        }
    }

    /// The point in time that was set last.
    pub fn load(&self) -> (r: u128)
        requires
            self.wf(),
        ensures
            r == self@,
    {
        self.anchor + self.offset_ns as u128
    }
}

/// Whether two runs of bytes are the same.
pub(crate) fn same_bytes(a: &[u8], b: &[u8]) -> (r: bool)
    ensures
        r == (a@ == b@),
{
    if a.len() != b.len() {
        return false;
    }
    let mut i: usize = 0;
    while i < a.len()
        invariant
            i <= a.len(),
            a.len() == b.len(),
            forall|k: int| 0 <= k < i ==> #[trigger] a@[k] == b@[k],
        decreases a.len() - i,
    {
        if a[i] != b[i] {
            assert(a@[i as int] != b@[i as int]);
            return false;
        }
        i = i + 1;
    }
    assert(a@ =~= b@);
    true
}

} // verus!
