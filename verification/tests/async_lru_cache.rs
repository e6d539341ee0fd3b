//! The cache, driven without waiting: every lock is granted at once, and the back end answers at
//! once.

use disk_cache::async_lru_cache::cache::AsyncLruCache;
use disk_cache::async_lru_cache::check_circular::CheckCircular;
use disk_cache::async_lru_cache::depend_on::DependOnStep;
use disk_cache::async_lru_cache::entry::{AsyncLruCacheEntry, Observation};
use disk_cache::async_lru_cache::error::{
    everything_in_use_message, still_in_use_message, CacheError,
};
use disk_cache::async_lru_cache::eviction::{choose_victim, EnsureFreeEntryStep, Victim};
use disk_cache::async_lru_cache::flush::FlushStep;
use disk_cache::async_lru_cache::get_or_insert::GetOrInsertStep;
use disk_cache::async_lru_cache::insert::InsertStep;
use disk_cache::async_lru_cache::invalidate::InvalidateStep;
use disk_cache::async_lru_cache::state::Dependency;
use disk_cache::async_lru_cache::step::{Action, Event, Step};
use disk_cache::async_lru_cache::write_back::DependencyStep;
use std::sync::{Arc, Mutex};

type Core = AsyncLruCache<usize, usize, Node>;
type Request = Action<usize, usize, Node>;
type Outcome = Event<usize, Node, String>;

/// What the back end of a cache does with a key.
type Rule = fn(usize) -> Result<(), String>;

fn succeed(_key: usize) -> Result<(), String> {
    Ok(())
}

fn fail(_key: usize) -> Result<(), String> {
    Err(String::from("flush failed"))
}

fn fail_odd(key: usize) -> Result<(), String> {
    if key % 2 == 1 {
        Err(String::from("odd key"))
    } else {
        Ok(())
    }
}

fn cannot_load(_key: usize) -> Result<(), String> {
    Err(String::from("cannot load"))
}

/// What happened, in order, in all caches of a test.
#[derive(Debug, Clone, PartialEq)]
enum Entry {
    Load(usize, usize),
    Flush(usize, usize, usize),
    Evict(usize, usize, usize),
    Retain(usize, usize),
    Visit(usize),
}

/// A cache with its back end, which loads the key itself as the object.
struct Node {
    id: usize,
    core: Mutex<Core>,
    started: Mutex<Vec<(usize, Arc<usize>)>>,
    load: Rule,
    flush: Mutex<Rule>,
    log: Arc<Mutex<Vec<Entry>>>,
}

impl Node {
    fn new(limit: usize) -> Arc<Node> {
        Node::with_rules(0, limit, succeed, succeed, &Arc::new(Mutex::new(Vec::new())))
    }

    fn with_rules(
        id: usize,
        limit: usize,
        load: Rule,
        flush: Rule,
        log: &Arc<Mutex<Vec<Entry>>>,
    ) -> Arc<Node> {
        Arc::new(Node {
            id,
            core: Mutex::new(AsyncLruCache::new(limit)),
            started: Mutex::new(Vec::new()),
            load,
            flush: Mutex::new(flush),
            log: Arc::clone(log),
        })
    }

    fn note(&self, entry: Entry) {
        self.log.lock().unwrap().push(entry);
    }

    fn entries(&self) -> Vec<Entry> {
        self.log.lock().unwrap().clone()
    }

    fn flushed(&self) -> Vec<(usize, usize)> {
        let mut flushed = Vec::new();
        for entry in self.entries() {
            if let Entry::Flush(_, key, value) = entry {
                flushed.push((key, value));
            }
        }
        flushed
    }

    fn len(&self) -> usize {
        self.core.lock().unwrap().len()
    }

    fn flush_object(&self, key: usize, value: usize) -> Result<(), String> {
        self.note(Entry::Flush(self.id, key, value));
        let rule = *self.flush.lock().unwrap();
        rule(key)
    }

    fn flush_started(&self) -> Result<(), String> {
        loop {
            let next = self.started.lock().unwrap().pop();
            match next {
                Some((key, value)) => self.flush_object(key, *value)?,
                None => return Ok(()),
            }
        }
    }

    fn perform(&self, action: Request) -> Outcome {
        match action {
            Action::LockMapShared | Action::LockMapExclusive | Action::LockDependencies => {
                Event::Locked
            }
            Action::FlushDependency(dependency) | Action::UnlockAndFlush(dependency) => {
                Event::Flushed(dependency.cache.flush())
            }
            Action::FlushEntry { key, value } => Event::Flushed(self.flush_object(key, *value)),
            Action::FlushEntries(list) => {
                *self.started.lock().unwrap() = list;
                Event::Flushed(self.flush_started())
            }
            Action::ContinueFlush => Event::Flushed(self.flush_started()),
            Action::Load { key } => {
                self.note(Entry::Load(self.id, key));
                match (self.load)(key) {
                    Ok(()) => Event::Loaded(Ok(key)),
                    Err(error) => Event::Loaded(Err(error)),
                }
            }
            Action::Evict { key, object } => {
                self.note(Entry::Evict(self.id, key, object));
                Event::Settled
            }
            Action::Retain { key } => {
                self.note(Entry::Retain(self.id, key));
                Event::Settled
            }
            Action::Visit(dependency) => {
                self.note(Entry::Visit(dependency.id));
                Event::Visited(dependency.cache.core.lock().unwrap().dependencies())
            }
        }
    }

    fn get_or_insert(&self, key: usize) -> Result<Arc<usize>, String> {
        let mut step: GetOrInsertStep<usize, usize, Node, String> =
            self.core.lock().unwrap().get_or_insert(key);
        loop {
            match step {
                Step::Wait { next, action } => {
                    let event = self.perform(action);
                    step = next.step(&mut self.core.lock().unwrap(), event);
                }
                Step::Done(result) => return result.map_err(text),
            }
        }
    }

    fn insert(&self, key: usize, value: Arc<usize>) -> Result<(), String> {
        let mut step: InsertStep<usize, usize, Node, String> =
            self.core.lock().unwrap().insert(key, value);
        loop {
            match step {
                Step::Wait { next, action } => {
                    let event = self.perform(action);
                    step = next.step(&mut self.core.lock().unwrap(), event);
                }
                Step::Done(result) => return result.map_err(text),
            }
        }
    }

    fn flush(&self) -> Result<(), String> {
        let mut step: FlushStep<usize, usize, Node, String> = self.core.lock().unwrap().flush();
        loop {
            match step {
                Step::Wait { next, action } => {
                    let event = self.perform(action);
                    step = next.step(&mut self.core.lock().unwrap(), event);
                }
                Step::Done(result) => return result,
            }
        }
    }

    fn invalidate(&self) -> Result<(), String> {
        let mut step: InvalidateStep<usize, usize, Node, String> =
            self.core.lock().unwrap().invalidate();
        loop {
            match step {
                Step::Wait { next, action } => {
                    let event = self.perform(action);
                    step = next.step(&mut self.core.lock().unwrap(), event);
                }
                Step::Done(result) => return result.map_err(text),
            }
        }
    }

    fn depend_on(&self, other: &Arc<Node>) -> Result<(), String> {
        let dependency = Dependency { id: other.id, cache: Arc::clone(other) };
        let mut step: DependOnStep<usize, usize, Node, String> =
            self.core.lock().unwrap().depend_on(self.id, dependency);
        loop {
            match step {
                Step::Wait { next, action } => {
                    let event = self.perform(action);
                    step = next.step(&mut self.core.lock().unwrap(), event);
                }
                Step::Done(result) => return result,
            }
        }
    }

    fn dependency_ids(&self) -> Vec<usize> {
        let mut ids = Vec::new();
        for dependency in self.core.lock().unwrap().dependencies() {
            ids.push(dependency.id);
        }
        ids
    }
}

fn text(error: CacheError<usize, String>) -> String {
    match error {
        CacheError::EverythingInUse => everything_in_use_message(),
        CacheError::WeaklyReferenced(key) => format!("weak reference to {key:?}"),
        CacheError::StillInUse(keys) => {
            let mut shown = Vec::new();
            for key in keys {
                shown.push(format!("{key:?}"));
            }
            still_in_use_message(&shown)
        }
        CacheError::Backend(error) => error,
    }
}

/// Caches 0, 1, ... that share a log.
fn family(count: usize, limit: usize) -> (Vec<Arc<Node>>, Arc<Mutex<Vec<Entry>>>) {
    let log = Arc::new(Mutex::new(Vec::new()));
    let mut nodes = Vec::new();
    for id in 0..count {
        nodes.push(Node::with_rules(id, limit, succeed, succeed, &log));
    }
    (nodes, log)
}

/// `flush()` must continue past individual entry errors and report the first one, not stop at
/// the first failure
#[test]
fn test_flush_continues_past_errors() {
    const ENTRIES: usize = 42;

    let log = Arc::new(Mutex::new(Vec::new()));
    let cache = Node::with_rules(0, ENTRIES, succeed, fail_odd, &log);

    for i in 0..ENTRIES {
        cache.get_or_insert(i).unwrap();
    }

    let err = cache.flush().unwrap_err();
    assert!(err.to_string().contains("odd key"));

    assert_eq!(cache.flushed().len(), ENTRIES);
}

/// Eviction must remove the least-recently-used entry
#[test]
fn test_lru_eviction_order() {
    const ENTRIES: usize = 3;

    let cache = Node::new(ENTRIES);

    for i in 0..ENTRIES {
        cache.get_or_insert(i).unwrap();
    }

    // Touch key 0 so it becomes most-recently-used
    cache.get_or_insert(0).unwrap();

    // Insert one more key: must evict key 1 (the oldest untouched)
    cache.get_or_insert(ENTRIES).unwrap();

    assert_eq!(cache.flushed(), [(1, 1)]);
}

/// Entries with external `Arc` references must not be evicted
#[test]
fn test_in_use_entries_not_evicted() {
    let cache = Node::new(2);

    let held = cache.get_or_insert(0).unwrap();
    cache.get_or_insert(1).unwrap();

    // Insert key 2: key 0 is oldest but in use, so key 1 must be evicted
    cache.get_or_insert(2).unwrap();

    assert_eq!(cache.flushed(), [(1, 1)]);
    assert_eq!(*held, 0);
}

/// When all entries are in use, eviction must fail with an error
#[test]
fn test_cache_full_all_in_use() {
    const ENTRIES: usize = 23;

    let cache = Node::new(ENTRIES);

    let mut held = vec![];
    for i in 0..ENTRIES {
        held.push(cache.get_or_insert(i).unwrap());
    }

    let err = cache.get_or_insert(ENTRIES).unwrap_err();
    assert!(err.to_string().contains("everything is in use"));
}

/// `invalidate()` must retain entries that are still in use and evict the rest
#[test]
fn test_invalidate_retains_in_use() {
    let cache = Node::new(16);

    let held = cache.get_or_insert(0).unwrap();
    cache.get_or_insert(1).unwrap();
    cache.get_or_insert(2).unwrap();

    let err = cache.invalidate().unwrap_err();
    assert!(err.to_string().contains("still in use"));

    let from_cache = cache.get_or_insert(0).unwrap();
    assert!(Arc::ptr_eq(&from_cache, &held));

    assert_eq!(cache.len(), 1);
}

/// When eviction flush fails, the entry must be re-inserted and remain accessible
#[test]
fn test_eviction_flush_failure_reinserts_entry() {
    const ENTRIES: usize = 2;

    let log = Arc::new(Mutex::new(Vec::new()));
    let cache = Node::with_rules(0, ENTRIES, succeed, fail, &log);

    for i in 0..ENTRIES {
        cache.get_or_insert(i).unwrap();
    }

    // Eviction flush fails
    let err = cache.get_or_insert(ENTRIES).unwrap_err();
    assert!(err.to_string().contains("flush failed"));

    // All original entries must still be in the cache
    assert_eq!(cache.len(), ENTRIES);
    for i in 0..ENTRIES {
        let entry = cache.get_or_insert(i).unwrap();
        assert_eq!(*entry, i);
    }

    // New entry was never inserted
    let err = cache.get_or_insert(ENTRIES).unwrap_err();
    assert!(err.to_string().contains("flush failed"));
}

/// `insert()` over an existing key must flush the old value first
#[test]
fn test_insert_flushes_existing() {
    let cache = Node::new(16);

    cache.get_or_insert(5).unwrap();
    cache.insert(5, Arc::new(55)).unwrap();

    assert_eq!(cache.flushed(), [(5, 5)]);
    assert_eq!(*cache.get_or_insert(5).unwrap(), 55);
    assert_eq!(cache.len(), 1);
}

#[test]
fn new_cache_is_empty() {
    let cache: Core = AsyncLruCache::new(3);
    assert_eq!(cache.len(), 0);
    assert!(!cache.is_full());
    assert!(cache.dependencies().is_empty());
}

#[test]
fn entry_gives_its_object() {
    let object = Arc::new(7usize);
    let entry = AsyncLruCacheEntry { value: Some(Arc::clone(&object)), last_used: 0 };
    assert!(Arc::ptr_eq(entry.value(), &object));
}

/// A hit does not load again, and gives the very same object.
#[test]
fn hit_gives_the_cached_object() {
    let cache = Node::new(2);
    let first = cache.get_or_insert(9).unwrap();
    let second = cache.get_or_insert(9).unwrap();
    assert!(Arc::ptr_eq(&first, &second));
    assert_eq!(cache.entries(), [Entry::Load(0, 9)]);
}

/// A miss asks for the locks in turn before the object is loaded.
#[test]
fn miss_goes_from_shared_to_exclusive_lock() {
    let mut core: Core = AsyncLruCache::new(1);
    let step: GetOrInsertStep<usize, usize, Node, String> = core.get_or_insert(4);
    let Step::Wait { next, action: Action::LockMapShared } = step else { panic!() };
    let step = next.step(&mut core, Event::<usize, Node, String>::Locked);
    let Step::Wait { next, action: Action::LockMapExclusive } = step else { panic!() };
    let step = next.step(&mut core, Event::<usize, Node, String>::Locked);
    let Step::Wait { next, action: Action::Load { key } } = step else { panic!() };
    assert_eq!(key, 4);
    let step = next.step(&mut core, Event::<usize, Node, String>::Loaded(Ok(40)));
    let Step::Done(Ok(object)) = step else { panic!() };
    assert_eq!(*object, 40);
    assert_eq!(core.len(), 1);
}

/// Someone else may have inserted the entry while the exclusive lock was awaited.
#[test]
fn entry_that_appeared_meanwhile_is_a_hit() {
    let mut core: Core = AsyncLruCache::new(2);
    let step: GetOrInsertStep<usize, usize, Node, String> = core.get_or_insert(4);
    let Step::Wait { next, .. } = step else { panic!() };
    let Step::Wait { next: waiting, .. } = next.step(&mut core, Event::<usize, Node, String>::Locked)
    else {
        panic!()
    };
    let step: InsertStep<usize, usize, Node, String> = core.insert(4, Arc::new(44));
    let Step::Wait { next, .. } = step else { panic!() };
    let step = next.step(&mut core, Event::<usize, Node, String>::Locked);
    assert!(matches!(step, Step::Done(Ok(()))));
    let step = waiting.step(&mut core, Event::<usize, Node, String>::Locked);
    let Step::Done(Ok(object)) = step else { panic!() };
    assert_eq!(*object, 44);
}

#[test]
fn failed_load_leaves_no_entry() {
    let log = Arc::new(Mutex::new(Vec::new()));
    let cache = Node::with_rules(0, 2, cannot_load, succeed, &log);
    assert_eq!(cache.get_or_insert(1).unwrap_err(), "cannot load");
    assert_eq!(cache.len(), 0);
}

/// The object is loaded first; only then is the oldest entry flushed out.
#[test]
fn load_comes_before_eviction() {
    let cache = Node::new(1);
    cache.get_or_insert(1).unwrap();
    cache.get_or_insert(2).unwrap();
    assert_eq!(cache.entries(), [Entry::Load(0, 1), Entry::Load(0, 2), Entry::Flush(0, 1, 1)]);
    assert_eq!(cache.len(), 1);
}

/// If the object cannot be loaded, nothing is flushed, and no entry is lost.
#[test]
fn failed_load_evicts_nothing() {
    let log = Arc::new(Mutex::new(Vec::new()));
    let cache = Node::with_rules(0, 1, cannot_load, succeed, &log);
    cache.insert(1, Arc::new(1)).unwrap();
    assert_eq!(cache.get_or_insert(2).unwrap_err(), "cannot load");
    assert!(cache.flushed().is_empty());
    assert_eq!(*cache.get_or_insert(1).unwrap(), 1);
}

/// A failed eviction does not change which entry is the oldest.
#[test]
fn failed_eviction_is_tried_again() {
    let log = Arc::new(Mutex::new(Vec::new()));
    let cache = Node::with_rules(0, 3, succeed, fail, &log);
    for i in 0..3 {
        cache.get_or_insert(i).unwrap();
    }
    assert!(cache.get_or_insert(3).is_err());
    assert!(cache.get_or_insert(4).is_err());
    assert!(cache.insert(5, Arc::new(5)).is_err());
    assert_eq!(cache.flushed(), [(0, 0), (0, 0), (0, 0)]);
}

/// An object that is held is the one retrieved later, whatever happens to the cache meanwhile.
#[test]
fn held_object_is_retrieved_again() {
    let (nodes, _log) = family(2, 2);
    let held = nodes[0].get_or_insert(1).unwrap();
    for i in 2..6 {
        nodes[0].get_or_insert(i).unwrap();
        nodes[0].insert(i + 10, Arc::new(i)).unwrap();
    }
    nodes[0].depend_on(&nodes[1]).unwrap();
    nodes[0].flush().unwrap();
    assert!(nodes[0].invalidate().is_err());
    nodes[0].log.lock().unwrap().clear();
    let again = nodes[0].get_or_insert(1).unwrap();
    assert!(Arc::ptr_eq(&held, &again));
    assert!(nodes[0].entries().is_empty());
}

/// The entry that was accessed last stays, and the one accessed furthest back goes.
#[test]
fn last_accessed_stays() {
    let cache = Node::new(2);
    cache.get_or_insert(1).unwrap();
    cache.get_or_insert(2).unwrap();
    cache.insert(1, Arc::new(11)).unwrap();
    cache.log.lock().unwrap().clear();
    cache.get_or_insert(3).unwrap();
    assert_eq!(cache.entries(), [Entry::Load(0, 3), Entry::Flush(0, 2, 2)]);
    cache.log.lock().unwrap().clear();
    assert_eq!(*cache.get_or_insert(1).unwrap(), 11);
    assert!(cache.entries().is_empty());
}

/// The cache never holds more entries than its limit.
#[test]
fn limit_is_kept() {
    let cache = Node::new(3);
    for i in 0..20 {
        cache.get_or_insert(i % 7).unwrap();
        cache.insert(i % 5, Arc::new(i)).unwrap();
        assert!(cache.len() <= 3);
    }
    assert_eq!(cache.len(), 3);
}

/// There is never room in a cache of size zero.
#[test]
fn cache_of_size_zero_takes_nothing() {
    let cache = Node::new(0);
    assert_eq!(
        cache.get_or_insert(1).unwrap_err(),
        "Cannot evict entry from cache; everything is in use"
    );
    assert!(cache.insert(1, Arc::new(1)).is_err());
    assert_eq!(cache.len(), 0);
}

/// Inserting a new object evicts the oldest entry of a full cache, and a later retrieval gives
/// the inserted object.
#[test]
fn insert_evicts_and_is_found_again() {
    let cache = Node::new(2);
    cache.get_or_insert(1).unwrap();
    cache.get_or_insert(2).unwrap();
    cache.insert(3, Arc::new(33)).unwrap();
    assert_eq!(cache.flushed(), [(1, 1)]);
    assert_eq!(*cache.get_or_insert(3).unwrap(), 33);
    assert_eq!(cache.len(), 2);
}

/// If the existing object cannot be flushed, it stays, and counts as accessed.
#[test]
fn failed_insert_keeps_existing_object() {
    let log = Arc::new(Mutex::new(Vec::new()));
    let cache = Node::with_rules(0, 2, succeed, fail, &log);
    cache.get_or_insert(1).unwrap();
    cache.get_or_insert(2).unwrap();
    assert_eq!(cache.insert(1, Arc::new(11)).unwrap_err(), "flush failed");
    assert_eq!(*cache.get_or_insert(1).unwrap(), 1);
    *cache.flush.lock().unwrap() = succeed;
    cache.get_or_insert(3).unwrap();
    assert_eq!(cache.flushed(), [(1, 1), (2, 2)]);
}

/// A weak reference to an object that could be evicted is reported, and nothing changes.
#[test]
fn weak_reference_is_reported() {
    let cache = Node::new(1);
    let weak = Arc::downgrade(&cache.get_or_insert(6).unwrap());
    assert_eq!(cache.get_or_insert(7).unwrap_err(), "weak reference to 6");
    assert_eq!(cache.len(), 1);
    assert_eq!(weak.strong_count(), 1);
}

fn seen(key: usize, last_used: usize, strong_count: usize) -> Observation<usize> {
    Observation { key, last_used, strong_count, weak_count: 0 }
}

#[test]
fn victim_is_the_oldest_unused() {
    let observed = vec![seen(10, 5, 1), seen(11, 2, 2), seen(12, 3, 1), seen(13, 9, 1)];
    assert!(matches!(choose_victim(&observed, 10), Victim::Entry(12)));
}

/// After the counter wrapped around, high timestamps are old ones.
#[test]
fn victim_after_wrap_around() {
    let observed = vec![seen(10, 0, 1), seen(11, usize::MAX - 1, 1), seen(12, usize::MAX, 1)];
    assert!(matches!(choose_victim(&observed, 1), Victim::Entry(11)));
}

/// Of equally old entries, the one that was looked at last is chosen.
#[test]
fn victim_among_equals_is_the_last() {
    let observed = vec![seen(10, 4, 1), seen(11, 4, 1), seen(12, 5, 1)];
    assert!(matches!(choose_victim(&observed, 6), Victim::Entry(11)));
}

#[test]
fn no_victim_if_everything_is_in_use() {
    let observed = vec![seen(10, 4, 2), seen(11, 4, 3)];
    assert!(matches!(choose_victim(&observed, 6), Victim::Nothing));
    assert!(matches!(choose_victim::<usize>(&vec![], 6), Victim::Nothing));
}

#[test]
fn first_weak_reference_is_named() {
    let mut observed = vec![seen(10, 4, 2), seen(11, 4, 1), seen(12, 4, 1)];
    observed[0].weak_count = 1;
    assert!(matches!(choose_victim(&observed, 6), Victim::Entry(12)));
    observed[1].weak_count = 1;
    observed[2].weak_count = 1;
    assert!(matches!(choose_victim(&observed, 6), Victim::WeaklyReferenced(11)));
}

/// Eviction by what was observed takes out the victim and asks for the lock on the dependencies.
#[test]
fn evict_takes_out_the_victim() {
    let node = Node::new(2);
    node.get_or_insert(1).unwrap();
    node.get_or_insert(2).unwrap();
    let mut core = node.core.lock().unwrap();
    let step: EnsureFreeEntryStep<usize, usize, Node, String> =
        core.evict(&vec![seen(1, 0, 2), seen(2, 1, 1)]);
    let Step::Wait { next, action: Action::LockDependencies } = step else { panic!() };
    assert_eq!(next.key, 2);
    assert_eq!(**next.entry.value(), 2);
    assert_eq!(next.entry.last_used, 1);
    assert_eq!(core.len(), 1);
}

/// What a cache depends on is flushed before anything of its own.
#[test]
fn dependencies_are_flushed_first() {
    let (nodes, log) = family(3, 1);
    nodes[1].get_or_insert(10).unwrap();
    nodes[2].get_or_insert(20).unwrap();
    nodes[0].depend_on(&nodes[1]).unwrap();
    nodes[0].depend_on(&nodes[2]).unwrap();
    assert_eq!(nodes[0].dependency_ids(), [1, 2]);
    nodes[0].get_or_insert(1).unwrap();
    log.lock().unwrap().clear();
    // The cache is full, so key 1 is evicted.
    nodes[0].get_or_insert(2).unwrap();
    assert_eq!(
        *log.lock().unwrap(),
        [Entry::Load(0, 2), Entry::Flush(2, 20, 20), Entry::Flush(1, 10, 10), Entry::Flush(0, 1, 1)]
    );
    assert!(nodes[0].dependency_ids().is_empty());
}

/// The same holds for a flush of the whole cache, and for an insertion.
#[test]
fn flush_and_insert_flush_dependencies_first() {
    let (nodes, log) = family(2, 4);
    nodes[1].get_or_insert(10).unwrap();
    nodes[0].get_or_insert(1).unwrap();
    nodes[0].depend_on(&nodes[1]).unwrap();
    log.lock().unwrap().clear();
    nodes[0].flush().unwrap();
    assert_eq!(*log.lock().unwrap(), [Entry::Flush(1, 10, 10), Entry::Flush(0, 1, 1)]);

    nodes[0].depend_on(&nodes[1]).unwrap();
    log.lock().unwrap().clear();
    nodes[0].insert(1, Arc::new(5)).unwrap();
    assert_eq!(*log.lock().unwrap(), [Entry::Flush(1, 10, 10), Entry::Flush(0, 1, 1)]);
    assert_eq!(nodes[0].len(), 1);
}

/// A dependency that cannot be flushed stays on the list with those that come before it, and the
/// entry that was to be evicted is put back.
#[test]
fn failed_dependency_stays_and_nothing_is_lost() {
    let (nodes, _log) = family(4, 1);
    for i in 1..4 {
        nodes[i].get_or_insert(10 * i).unwrap();
        nodes[0].depend_on(&nodes[i]).unwrap();
    }
    nodes[0].get_or_insert(1).unwrap();
    *nodes[2].flush.lock().unwrap() = fail;
    assert_eq!(nodes[0].get_or_insert(2).unwrap_err(), "flush failed");
    assert_eq!(nodes[0].dependency_ids(), [1, 2]);
    assert_eq!(nodes[0].len(), 1);
    assert_eq!(*nodes[0].get_or_insert(1).unwrap(), 1);
    assert_eq!(nodes[0].flush().unwrap_err(), "flush failed");
    *nodes[2].flush.lock().unwrap() = succeed;
    nodes[0].flush().unwrap();
    assert!(nodes[0].dependency_ids().is_empty());
}

#[test]
fn flush_dependencies_goes_from_last_to_first() {
    let (nodes, _log) = family(3, 1);
    nodes[0].depend_on(&nodes[1]).unwrap();
    nodes[0].depend_on(&nodes[2]).unwrap();
    let mut core = nodes[0].core.lock().unwrap();
    let DependencyStep::Flush(last) = core.flush_dependencies::<String>(None) else { panic!() };
    assert_eq!(last.id, 2);
    let DependencyStep::Flush(first) = core.flush_dependencies::<String>(Some((last, Ok(()))))
    else {
        panic!()
    };
    assert_eq!(first.id, 1);
    let step = core.flush_dependencies(Some((first, Err(String::from("no")))));
    let DependencyStep::Failed(error) = step else { panic!() };
    assert_eq!(error, "no");
    assert_eq!(core.dependencies().len(), 1);
}

/// Flushing keeps the entries, and ends with the first error.
#[test]
fn flush_keeps_entries() {
    let cache = Node::new(4);
    for i in 0..4 {
        cache.get_or_insert(i).unwrap();
    }
    cache.flush().unwrap();
    let mut flushed = cache.flushed();
    flushed.sort();
    assert_eq!(flushed, [(0, 0), (1, 1), (2, 2), (3, 3)]);
    assert_eq!(cache.len(), 4);
}

#[test]
fn first_flush_error_is_reported() {
    let mut core: Core = AsyncLruCache::new(4);
    let step: FlushStep<usize, usize, Node, String> = core.flush();
    let Step::Wait { next, action: Action::LockDependencies } = step else { panic!() };
    let Step::Wait { next, action: Action::LockMapShared } = next.step(&mut core, Event::Locked)
    else {
        panic!()
    };
    let Step::Wait { next, action: Action::FlushEntries(list) } = next.step(&mut core, Event::Locked)
    else {
        panic!()
    };
    assert!(list.is_empty());
    let step = next.step(&mut core, Event::Flushed(Err(String::from("one"))));
    let Step::Wait { next, action: Action::ContinueFlush } = step else { panic!() };
    let step = next.step(&mut core, Event::Flushed(Err(String::from("two"))));
    let Step::Wait { next, action: Action::ContinueFlush } = step else { panic!() };
    let Step::Done(Err(error)) = next.step(&mut core, Event::Flushed(Ok(()))) else { panic!() };
    assert_eq!(error, "one");
}

/// Successful invalidation hands each object to the back end, and forgets the dependencies.
#[test]
fn invalidate_evicts_everything() {
    let (nodes, log) = family(2, 4);
    nodes[0].get_or_insert(1).unwrap();
    nodes[0].get_or_insert(2).unwrap();
    nodes[0].depend_on(&nodes[1]).unwrap();
    log.lock().unwrap().clear();
    nodes[0].invalidate().unwrap();
    assert_eq!(nodes[0].len(), 0);
    assert!(nodes[0].dependency_ids().is_empty());
    let entries = log.lock().unwrap().clone();
    assert_eq!(entries.len(), 2);
    assert!(entries.contains(&Entry::Evict(0, 1, 1)));
    assert!(entries.contains(&Entry::Evict(0, 2, 2)));
}

/// Failed invalidation keeps the dependencies, and names the keys.
#[test]
fn failed_invalidation_keeps_dependencies() {
    let (nodes, log) = family(2, 4);
    let held = nodes[0].get_or_insert(3).unwrap();
    nodes[0].get_or_insert(4).unwrap();
    nodes[0].depend_on(&nodes[1]).unwrap();
    log.lock().unwrap().clear();
    assert_eq!(
        nodes[0].invalidate().unwrap_err(),
        "Cannot invalidate cache, entries still in use: 3"
    );
    assert_eq!(nodes[0].dependency_ids(), [1]);
    let entries = log.lock().unwrap().clone();
    assert!(entries.contains(&Entry::Retain(0, 3)));
    assert!(entries.contains(&Entry::Evict(0, 4, 4)));
    assert_eq!(*held, 3);
}

#[test]
fn settle_evicts_or_retains() {
    let mut core: Core = AsyncLruCache::new(2);
    assert!(matches!(core.settle(1, 5, Ok(7)), Action::Evict { key: 1, object: 7 }));
    assert_eq!(core.len(), 0);
    assert!(matches!(core.settle(1, 5, Err(Arc::new(7))), Action::Retain { key: 1 }));
    assert_eq!(core.len(), 1);
}

#[test]
fn messages() {
    assert_eq!(
        everything_in_use_message(),
        "Cannot evict entry from cache; everything is in use"
    );
    assert_eq!(
        still_in_use_message(&vec![String::from("1"), String::from("22"), String::from("3")]),
        "Cannot invalidate cache, entries still in use: 1, 22, 3"
    );
    assert_eq!(
        still_in_use_message(&vec![]),
        "Cannot invalidate cache, entries still in use: "
    );
}

/// A dependency is entered once.
#[test]
fn dependency_is_entered_once() {
    let (nodes, _log) = family(2, 1);
    nodes[0].depend_on(&nodes[1]).unwrap();
    nodes[0].depend_on(&nodes[1]).unwrap();
    assert_eq!(nodes[0].dependency_ids(), [1]);
}

/// A dependency that could not be flushed is on the list once, and can be entered no second time.
#[test]
fn failed_dependency_is_listed_once() {
    let (nodes, log) = family(3, 1);
    nodes[2].get_or_insert(20).unwrap();
    nodes[0].depend_on(&nodes[1]).unwrap();
    nodes[0].depend_on(&nodes[2]).unwrap();
    *nodes[2].flush.lock().unwrap() = fail;
    assert_eq!(nodes[0].flush().unwrap_err(), "flush failed");
    assert_eq!(nodes[0].dependency_ids(), [1, 2]);
    log.lock().unwrap().clear();
    nodes[0].depend_on(&nodes[2]).unwrap();
    nodes[0].depend_on(&nodes[1]).unwrap();
    assert_eq!(nodes[0].dependency_ids(), [1, 2]);
    assert!(log.lock().unwrap().is_empty());
}

/// To avoid a circle, the other cache is flushed first, which makes it forget its dependencies.
#[test]
fn direct_circle_is_broken_by_a_flush() {
    let (nodes, log) = family(2, 1);
    nodes[0].get_or_insert(1).unwrap();
    nodes[1].get_or_insert(2).unwrap();
    nodes[1].depend_on(&nodes[0]).unwrap();
    log.lock().unwrap().clear();
    nodes[0].depend_on(&nodes[1]).unwrap();
    assert_eq!(nodes[0].dependency_ids(), [1]);
    assert!(nodes[1].dependency_ids().is_empty());
    assert_eq!(
        *log.lock().unwrap(),
        [Entry::Visit(1), Entry::Flush(0, 1, 1), Entry::Flush(1, 2, 2), Entry::Visit(1)]
    );
}

/// A circle by way of other caches is found, too.
#[test]
fn transitive_circle_is_broken_by_a_flush() {
    let (nodes, _log) = family(3, 1);
    nodes[1].depend_on(&nodes[2]).unwrap();
    nodes[2].depend_on(&nodes[0]).unwrap();
    nodes[0].depend_on(&nodes[1]).unwrap();
    assert_eq!(nodes[0].dependency_ids(), [1]);
    assert!(nodes[1].dependency_ids().is_empty());
    assert!(nodes[2].dependency_ids().is_empty());
}

/// If the other cache cannot be flushed, no dependency is entered.
#[test]
fn circle_that_cannot_be_broken_is_an_error() {
    let (nodes, _log) = family(2, 1);
    nodes[1].get_or_insert(2).unwrap();
    nodes[1].depend_on(&nodes[0]).unwrap();
    *nodes[1].flush.lock().unwrap() = fail;
    assert_eq!(nodes[0].depend_on(&nodes[1]).unwrap_err(), "flush failed");
    assert!(nodes[0].dependency_ids().is_empty());
}

/// Every cache is visited once, even where several depend on it.
#[test]
fn search_visits_each_cache_once() {
    let (nodes, log) = family(5, 1);
    nodes[1].depend_on(&nodes[2]).unwrap();
    nodes[1].depend_on(&nodes[3]).unwrap();
    nodes[2].depend_on(&nodes[4]).unwrap();
    nodes[3].depend_on(&nodes[4]).unwrap();
    log.lock().unwrap().clear();
    nodes[0].depend_on(&nodes[1]).unwrap();
    let mut visited = log.lock().unwrap().clone();
    visited.sort_by_key(|entry| format!("{entry:?}"));
    assert_eq!(visited, [Entry::Visit(1), Entry::Visit(2), Entry::Visit(3), Entry::Visit(4)]);
}

#[test]
fn search_ends_with_the_answer() {
    let (nodes, _log) = family(3, 1);
    let handle = |i: usize| Dependency { id: i, cache: Arc::clone(&nodes[i]) };
    let Step::Wait { next, .. } = CheckCircular::start::<usize, usize>(handle(1), 0) else { panic!() };
    let Step::Wait { next, action } = next.step::<usize, usize>(vec![handle(2)]) else { panic!() };
    assert!(matches!(
        action,
        Action::Visit(dependency) if dependency.id == 2 && Arc::ptr_eq(&dependency.cache, &nodes[2])
    ));
    let step = next.step::<usize, usize>(vec![handle(1), handle(0)]);
    assert!(matches!(step, Step::Done(true)));

    let Step::Wait { next, .. } = CheckCircular::start::<usize, usize>(handle(1), 0) else { panic!() };
    assert!(matches!(next.step::<usize, usize>(vec![]), Step::Done(false)));
}
