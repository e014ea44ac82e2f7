//! A mapper: a buffer that is used again for every batch, and a handle to
//! the pool of worker threads that fill it.

use vstd::prelude::*;

verus! {

/// A handle to a pool of worker threads, a `scoped_pool::Pool`.
///
/// A handle stays on the thread that made it: it can neither be sent to
/// another thread nor be shared with one. So nothing that runs on the
/// workers can reach the workers that it runs on, and a batch never waits
/// for another batch on the same workers.
#[verifier::external_body]
pub struct ThreadPool {
    workers: scoped_pool::Pool,
    stays: std::marker::PhantomData<std::rc::Rc<()>>,
}

/// The number of worker threads that a pool was started with.
pub uninterp spec fn worker_count(pool: ThreadPool) -> nat;

/// `scoped_pool::Pool::new`: a pool with `size` worker threads. The pool
/// starts every thread before it returns. Whether the machine has that
/// many threads to give is not a matter of `size` alone, and nothing is
/// claimed of a machine that refuses one: the outside call then does not
/// return a pool.
#[verifier::external_body]
fn start_workers(size: usize) -> (r: ThreadPool)
    ensures
        worker_count(r) == size,
{
    ThreadPool { workers: scoped_pool::Pool::new(size), stays: std::marker::PhantomData }
}

/// `Clone` of `scoped_pool::Pool`: another handle to the same worker
/// threads.
#[verifier::external_body]
pub(crate) fn share_workers(pool: &ThreadPool) -> (r: ThreadPool)
    ensures
        worker_count(r) == worker_count(*pool),
{
    ThreadPool { workers: pool.workers.clone(), stays: std::marker::PhantomData }
}

impl ThreadPool {
    /// A pool with `size` worker threads.
    pub fn new(size: usize) -> (r: ThreadPool)
        ensures
            worker_count(r) == size,
    {
        start_workers(size)
    }
}

/// `scoped_pool::Pool::scoped` with one `Scope::execute` for each item:
/// every job calls `func` on its item and stores what it gives in the slot
/// of the same place; `scoped` returns when all jobs have run. Only the
/// workers run jobs, so a pool without workers would never run them, and
/// neither would workers that all wait for jobs of their own. The first
/// is left out by the count of workers. The second cannot come about:
/// `func` is shared with the workers, so it holds no handle to them.
#[verifier::external_body]
fn fill_slots<T: Send, Item: Send, F: Fn(Item) -> T + Send + Sync>(
    pool: &ThreadPool,
    storage: &mut Vec<Option<T>>,
    func: &F,
    items: Vec<Item>,
)
    requires
        worker_count(*pool) > 0,
        old(storage)@.len() == items@.len(),
        forall|i: int| 0 <= i < items@.len() ==> call_requires(*func, (#[trigger] items@[i],)),
    ensures
        final(storage)@.len() == items@.len(),
        forall|i: int|
            0 <= i < items@.len() ==> (#[trigger] final(storage)@[i]) is Some && call_ensures(
                *func,
                (items@[i],),
                final(storage)@[i]->0,
            ),
{
    pool.workers.scoped(
        |scope| {
            for (slot, item) in storage.iter_mut().zip(items) {
                scope.execute(move || *slot = Some(func(item)));
            }
        },
    );
}

/// A buffer for the results of a batch, and the workers that fill it.
pub struct Mapper<T> {
    storage: Vec<Option<T>>,
    threadpool: ThreadPool,
}

impl<T: Send> Mapper<T> {
    /// The number of worker threads behind this mapper.
    pub closed spec fn workers(&self) -> nat {
        worker_count(self.threadpool)
    }

    /// A mapper on the given workers, with room for `storage_size`
    /// results.
    pub fn new(threadpool: ThreadPool, storage_size: usize) -> (r: Self)
        ensures
            r.workers() == worker_count(threadpool),
    {
        Self { threadpool, storage: Vec::with_capacity(storage_size) }
    }

    /// Calls `func` on every item, each call on a worker thread, and gives
    /// the results in the order of the items.
    pub fn map<Item: Send, F: Fn(Item) -> T + Send + Sync>(&mut self, func: F, items: Vec<Item>)
        -> (r: Vec<T>)
        requires
            old(self).workers() > 0,
            forall|i: int| 0 <= i < items@.len() ==> call_requires(func, (#[trigger] items@[i],)),
        ensures
            final(self).workers() == old(self).workers(),
            r@.len() == items@.len(),
            forall|i: int|
                0 <= i < items@.len() ==> call_ensures(func, (items@[i],), #[trigger] r@[i]),
    {
        let count = items.len();
        self.storage.clear();
        let mut i: usize = 0;
        while i < count
            invariant
                i <= count,
                self.storage@.len() == i,
                self.threadpool == old(self).threadpool,
            decreases count - i,
        {
            self.storage.push(None);
            i = i + 1;
        }
        fill_slots(&self.threadpool, &mut self.storage, &func, items);
        let mut results: Vec<T> = Vec::new();
        let mut i: usize = 0;
        while i < count
            invariant
                i <= count,
                count == items@.len(),
                self.storage@.len() == count,
                self.threadpool == old(self).threadpool,
                results@.len() == i,
                forall|j: int|
                    i <= j < count ==> (#[trigger] self.storage@[j]) is Some && call_ensures(
                        func,
                        (items@[j],),
                        self.storage@[j]->0,
                    ),
                forall|j: int|
                    0 <= j < i ==> call_ensures(func, (items@[j],), #[trigger] results@[j]),
            decreases count - i,
        {
            let slot = self.storage[i].take();
            results.push(slot.unwrap());
            i = i + 1;
        }
        self.storage.clear();
        results
    }
}

} // verus!
