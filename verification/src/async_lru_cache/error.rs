//! Errors.

use vstd::prelude::*;
use vstd::string::StringExecFns;

verus! {

/// Why an operation on the cache failed.
pub enum CacheError<K, E> {
    /// An entry would have to be evicted, but something outside of the cache holds on to each.
    EverythingInUse,
    /// A weak reference was made to the object under this key, which users must never do.
    WeaklyReferenced(K),
    /// Something outside of the cache holds on to the objects under these keys.
    StillInUse(Vec<K>),
    /// The back end, or another cache, failed.
    Backend(E),
}

/// Text for [`CacheError::EverythingInUse`].
pub fn everything_in_use_message() -> (message: String)
    ensures
        message@ == "Cannot evict entry from cache; everything is in use"@,
{
    String::from_str("Cannot evict entry from cache; everything is in use")
}

/// `parts`, one after the other, with `separator` in between.
pub open spec fn joined(parts: Seq<String>, separator: Seq<char>) -> Seq<char>
    decreases parts.len(),
{
    if parts.len() == 0 {
        Seq::empty()
    } else if parts.len() == 1 {
        parts[0]@
    } else {
        joined(parts.drop_last(), separator) + separator + parts.last()@
    }
}

/// Joining adds one part after the other, and the separator between two.
pub proof fn law_joined(parts: Seq<String>, part: String, separator: Seq<char>)
    ensures
        joined(Seq::empty(), separator) == Seq::<char>::empty(),
        joined(parts.push(part), separator) == if parts.len() == 0 {
            part@
        } else {
            joined(parts, separator) + separator + part@
        },
{
    assert(parts.push(part).drop_last() == parts);
}

/// Text for [`CacheError::StillInUse`], where `keys` are the keys as they are to be shown.
pub fn still_in_use_message(keys: &Vec<String>) -> (message: String)
    ensures
        message@ == "Cannot invalidate cache, entries still in use: "@ + joined(keys@, ", "@),
{
    let mut list = String::new();
    for i in 0..keys.len()
        invariant
            list@ == joined(keys@.take(i as int), ", "@),
    {
        let ghost before = keys@.take(i as int);
        assert(keys@.take(i + 1).drop_last() == before);
        assert(keys@.take(i + 1).last() == keys@[i as int]);
        if i > 0 {
            list.append(", ");
        }
        list.append(keys[i].as_str());
        assert(i == 0 ==> list@ == keys@[0]@);
    }
    assert(keys@.take(keys@.len() as int) == keys@);
    let mut message = String::from_str("Cannot invalidate cache, entries still in use: ");
    message.append(list.as_str());
    message
}

} // verus!
