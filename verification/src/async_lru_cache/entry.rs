//! Cache entries, and what can be observed of the references to their objects.

use std::sync::Arc;
use vstd::prelude::*;

verus! {

/// Cache entry structure, wrapping the cached object.
pub struct AsyncLruCacheEntry<V> {
    /// Cached object.
    ///
    /// Always set during operation, only cleared when trying to unwrap the `Arc` on
    /// invalidation.
    pub value: Option<Arc<V>>,
    /// When this entry was last accessed.
    pub last_used: usize,
}

impl<V> AsyncLruCacheEntry<V> {
    /// The entry for an object that is in the cache.
    pub open spec fn of(value: Arc<V>, last_used: usize) -> Self {
        AsyncLruCacheEntry { value: Some(value), last_used }
    }

    /// Return the cached object.
    pub fn value(&self) -> (object: &Arc<V>)
        requires
            self.value is Some,
        ensures
            *object == self.value->0,
    {
        match &self.value {
            Some(object) => object,
            None => vstd::pervasive::unreached(),
        }
    }
}

/// What was seen of one entry when looking for one to evict.
pub struct Observation<K> {
    /// Key of the entry.
    pub key: K,
    /// When the entry was last accessed.
    pub last_used: usize,
    /// Number of strong references to the object, the one in the cache included.
    pub strong_count: usize,
    /// Number of weak references to the object.
    pub weak_count: usize,
}

impl<K> Observation<K> {
    /// Nothing outside of the cache holds the object.
    pub open spec fn unused(self) -> bool {
        self.strong_count == 1
    }
}

/// The cache's own reference to an object.
///
/// It keeps track of how many further references it has given out.  Nothing else gets at the
/// `Arc`, and none of what counts references can give one out, so while they are being counted
/// there is no more than this one reference and those that were given out.
pub struct Kept<V> {
    /// The object.
    object: Arc<V>,
    /// How many references to it were given out.
    lent: Ghost<nat>,
}

impl<V> Kept<V> {
    /// The object.
    pub closed spec fn object(self) -> Arc<V> {
        self.object
    }

    /// How many references to the object were given out.
    pub closed spec fn lent(self) -> nat {
        self.lent@
    }

    /// Keep an object.
    pub(crate) fn new(object: Arc<V>) -> (kept: Self)
        ensures
            kept.object() == object,
            kept.lent() == 0,
    {
        Kept { object, lent: Ghost(0) }
    }

    /// Give out another reference to the object.
    pub fn lend(&mut self) -> (object: Arc<V>)
        ensures
            object == old(self).object(),
            final(self).object() == old(self).object(),
            final(self).lent() == old(self).lent() + 1,
    {
        self.lent = Ghost(self.lent@ + 1);
        Arc::clone(&self.object)
    }

    /// Give the object away.
    pub(crate) fn release(self) -> (object: Arc<V>)
        ensures
            object == self.object(),
    {
        self.object
    }
}

/// No reference to a kept object is given out without being counted, and none that is counted goes
/// back.
pub proof fn law_lending_is_counted<V>()
    ensures
        forall|kept: &mut Kept<V>, object: Arc<V>| #[trigger]
            call_ensures(Kept::<V>::lend, (kept,), object) ==> {
                &&& object == kept.object()
                &&& final(kept).object() == kept.object()
                &&& final(kept).lent() == kept.lent() + 1
            },
{
}

/// `Arc::strong_count`: the number of strong references to the object at the moment of the call.
///
/// Nothing is claimed of the number: other threads may create and drop references at any time.
#[verifier::external_body]
pub(crate) fn strong_count<V>(kept: &Kept<V>) -> usize {
    Arc::strong_count(&kept.object)
}

/// `Arc::weak_count`: the number of weak references to the object at the moment of the call.
///
/// Nothing is claimed of the number: other threads may create and drop references at any time.
#[verifier::external_body]
pub(crate) fn weak_count<V>(kept: &Kept<V>) -> usize {
    Arc::weak_count(&kept.object)
}

/// `strong` and `weak` are numbers that [`strong_count`] and [`weak_count`] return for this very
/// object, while `lent` further references to it were given out.
pub closed spec fn counted<V>(object: Arc<V>, lent: nat, strong: usize, weak: usize) -> bool {
    &&& call_ensures(strong_count::<V>, (&Kept { object, lent: Ghost(lent) },), strong)
    &&& call_ensures(weak_count::<V>, (&Kept { object, lent: Ghost(lent) },), weak)
}

/// What was counted of an object that is kept.
pub(crate) proof fn lemma_counted<V>(kept: &Kept<V>, strong: usize, weak: usize)
    requires
        call_ensures(strong_count::<V>, (kept,), strong),
        call_ensures(weak_count::<V>, (kept,), weak),
    ensures
        counted(kept.object(), kept.lent(), strong, weak),
{
    assert(*kept == Kept { object: kept.object(), lent: Ghost(kept.lent()) });
}

/// `Arc::try_unwrap`: the object itself if this was the only strong reference to it, and else
/// the reference back.
///
/// Which of the two comes back depends on who else holds a reference, and is left open; either
/// way it is the same object.
#[verifier::external_body]
pub(crate) fn try_unwrap<V>(kept: Kept<V>) -> (unwrapped: Result<V, Arc<V>>)
    ensures
        match unwrapped {
            Ok(owned) => owned == *kept.object(),
            Err(shared) => shared == kept.object(),
        },
{
    Arc::try_unwrap(kept.object)
}

/// `unwrapped` is what [`try_unwrap`] returns for this very object, while `lent` further
/// references to it were given out.
pub closed spec fn tried<V>(object: Arc<V>, lent: nat, unwrapped: Result<V, Arc<V>>) -> bool {
    call_ensures(try_unwrap::<V>, (Kept { object, lent: Ghost(lent) },), unwrapped)
}

/// What came of trying to unwrap an object that was kept.
pub(crate) proof fn lemma_tried<V>(kept: Kept<V>, unwrapped: Result<V, Arc<V>>)
    requires
        call_ensures(try_unwrap::<V>, (kept,), unwrapped),
    ensures
        tried(kept.object(), kept.lent(), unwrapped),
{
    assert(kept == Kept { object: kept.object(), lent: Ghost(kept.lent()) });
}

/// Something outside of the cache holds on to the object: no count of the references to it finds
/// just the one in the cache, and it cannot be unwrapped.
///
/// Objects are told apart by what they are, not by where they are.  Where two equal objects are
/// cached and just one of them is in use, neither this nor [`unheld`] can be said of either.
pub open spec fn held<V>(object: Arc<V>) -> bool {
    &&& forall|lent: nat, strong: usize, weak: usize| #[trigger]
        counted(object, lent, strong, weak) ==> strong != 1
    &&& forall|lent: nat, unwrapped: Result<V, Arc<V>>| #[trigger]
        tried(object, lent, unwrapped) ==> unwrapped is Err
}

/// Nothing outside of the cache holds on to the object any more, all of the `lent` references that
/// were given out having been dropped: every count of the references to it finds just the one in
/// the cache, and it can be unwrapped.
///
/// As with [`held`], objects are told apart by what they are.
pub open spec fn unheld<V>(object: Arc<V>, lent: nat) -> bool {
    &&& forall|strong: usize, weak: usize| #[trigger]
        counted(object, lent, strong, weak) ==> strong == 1 && weak == 0
    &&& forall|unwrapped: Result<V, Arc<V>>| #[trigger]
        tried(object, lent, unwrapped) ==> unwrapped is Ok
}

} // verus!
