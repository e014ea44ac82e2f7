//! A pool of mappers: each one maps a function over a batch of items on
//! the threads of a shared pool of workers. A mapper is taken from the
//! pool for one batch and put back after it.
//!
//! The workers, the mappers and the pool of mappers belong to the thread
//! that made them. What a mapper runs on the workers is shared among
//! threads and therefore holds none of them.

pub mod mapper;
pub mod pool;

pub use mapper::{Mapper, ThreadPool};
pub use pool::{Factory, Pool};

use mapper::{share_workers, worker_count};
use vstd::prelude::*;

verus! {

/// What makes the mappers of a pool: all on the same workers.
pub struct MapperFactory {
    threadpool: ThreadPool,
    storage_size: usize,
}

impl<T: Send> Factory<Mapper<T>> for MapperFactory {
    open spec fn ready(&self) -> bool {
        true
    }

    closed spec fn makes(&self, made: Mapper<T>) -> bool {
        made.workers() == worker_count(self.threadpool)
    }

    fn make(&self) -> (made: Mapper<T>) {
        Mapper::new(share_workers(&self.threadpool), self.storage_size)
    }
}

/// A stock of mappers on the same workers.
pub struct MapperPool<T: Send> {
    pool: Pool<Mapper<T>, MapperFactory>,
    workers: usize,
}

impl<T: Send> MapperPool<T> {
    /// Whether every mapper of the pool is on as many workers as the pool
    /// was built with.
    pub closed spec fn wf(&self) -> bool {
        &&& worker_count(self.pool.factory().threadpool) == self.workers
        &&& forall|i: int|
            0 <= i < self.pool@.len() ==> (#[trigger] self.pool@[i]).workers() == self.workers
    }

    /// The number of mappers that wait in the pool.
    pub closed spec fn idle(&self) -> nat {
        self.pool@.len()
    }

    /// The number of worker threads.
    pub closed spec fn workers(&self) -> nat {
        self.workers as nat
    }

    /// How a pool is built, with the settings to begin with.
    pub fn builder() -> (r: MapperPoolBuilder)
        ensures
            r.pool_size == 0,
            r.storage_size == 0,
            r.workers_count >= 1,
    {
        MapperPoolBuilder::new()
    }

    /// The number of worker threads.
    pub fn workers_count(&self) -> (r: usize)
        ensures
            r == self.workers(),
    {
        self.workers
    }

    /// Takes a mapper out of the pool, for one batch or more; `release`
    /// puts it back.
    pub fn acquire(&mut self) -> (r: Mapper<T>)
        requires
            old(self).wf(),
        ensures
            final(self).wf(),
            final(self).workers() == old(self).workers(),
            r.workers() == old(self).workers(),
    {
        let ghost stock = self.pool@;
        let mapper = self.pool.get();
        assert(mapper.workers() == self.workers) by {
            if stock.len() > 0 {
                assert(mapper == stock[stock.len() - 1]);
            }
        }
        mapper
    }

    /// Puts a mapper back that `acquire` gave.
    pub fn release(&mut self, mapper: Mapper<T>)
        requires
            old(self).wf(),
            mapper.workers() == old(self).workers(),
        ensures
            final(self).wf(),
            final(self).workers() == old(self).workers(),
            final(self).idle() == old(self).idle() + 1,
    {
        self.pool.put(mapper);
    }

    /// Calls `func` on every item and gives the results in the order of
    /// the items. With workers the calls are made on their threads by a
    /// mapper of the pool; without any they are made one after another
    /// here.
    pub fn map<Item: Send, F: Fn(Item) -> T + Send + Sync>(&mut self, func: F, items: Vec<Item>)
        -> (r: Vec<T>)
        requires
            old(self).wf(),
            forall|i: int| 0 <= i < items@.len() ==> call_requires(func, (#[trigger] items@[i],)),
        ensures
            final(self).wf(),
            final(self).workers() == old(self).workers(),
            r@.len() == items@.len(),
            forall|i: int|
                0 <= i < items@.len() ==> call_ensures(func, (items@[i],), #[trigger] r@[i]),
    {
        if self.workers == 0 {
            return map_here(func, items);
        }
        let mut mapper = self.acquire();
        let res = mapper.map(func, items);
        self.release(mapper);
        res
    }
}

/// Calls `func` on every item, one after another.
pub fn map_here<T, Item, F: Fn(Item) -> T>(func: F, items: Vec<Item>) -> (r: Vec<T>)
    requires
        forall|i: int| 0 <= i < items@.len() ==> call_requires(func, (#[trigger] items@[i],)),
    ensures
        r@.len() == items@.len(),
        forall|i: int| 0 <= i < items@.len() ==> call_ensures(func, (items@[i],), #[trigger] r@[i]),
{
    let mut items = items;
    let ghost all = items@;
    let mut reversed: Vec<T> = Vec::new();
    while items.len() > 0
        invariant
            items@.len() <= all.len(),
            items@ == all.subrange(0, items@.len() as int),
            reversed@.len() == all.len() - items@.len(),
            forall|i: int| 0 <= i < all.len() ==> call_requires(func, (#[trigger] all[i],)),
            forall|j: int|
                0 <= j < reversed@.len() ==> call_ensures(
                    func,
                    (all[all.len() - 1 - j],),
                    #[trigger] reversed@[j],
                ),
        decreases items@.len(),
    {
        let item = items.pop().unwrap();
        assert(item == all[items@.len() as int]);
        reversed.push(func(item));
    }
    let mut r: Vec<T> = Vec::new();
    while reversed.len() > 0
        invariant
            reversed@.len() + r@.len() == all.len(),
            forall|j: int|
                0 <= j < reversed@.len() ==> call_ensures(
                    func,
                    (all[all.len() - 1 - j],),
                    #[trigger] reversed@[j],
                ),
            forall|i: int| 0 <= i < r@.len() ==> call_ensures(func, (all[i],), #[trigger] r@[i]),
        decreases reversed@.len(),
    {
        let result = reversed.pop().unwrap();
        r.push(result);
    }
    r
}

/// How a pool of mappers is to be built: the number of mappers made in
/// advance, the room that each mapper has to begin with, and the number
/// of worker threads.
pub struct MapperPoolBuilder {
    pub pool_size: usize,
    pub storage_size: usize,
    pub workers_count: usize,
}

/// `num_cpus::get`: the number of processors that this process may use,
/// which is at least 1.
#[verifier::external_body]
fn available_cpus() -> (r: usize)
    ensures
        r >= 1,
{
    num_cpus::get()
}

impl MapperPoolBuilder {
    /// No mappers made in advance, no room to begin with, and a worker for
    /// each processor.
    pub fn new() -> (r: Self)
        ensures
            r.pool_size == 0,
            r.storage_size == 0,
            r.workers_count >= 1,
    {
        Self { pool_size: 0, storage_size: 0, workers_count: available_cpus() }
    }

    /// Sets the number of mappers made in advance.
    pub fn pool_size(&mut self, val: usize) -> (r: &mut Self)
        ensures
            *r == (MapperPoolBuilder { pool_size: val, ..*old(self) }),
            *final(self) == *final(r),
    {
        self.pool_size = val;
        self
    }

    /// Sets the room that each mapper has to begin with.
    pub fn storage_size(&mut self, val: usize) -> (r: &mut Self)
        ensures
            *r == (MapperPoolBuilder { storage_size: val, ..*old(self) }),
            *final(self) == *final(r),
    {
        self.storage_size = val;
        self
    }

    pub fn workers_count(&mut self, val: usize) -> (r: &mut Self)
        ensures
            *r == (MapperPoolBuilder { workers_count: val, ..*old(self) }),
            *final(self) == *final(r),
    {
        self.workers_count = val;
        self
    }

    /// A pool with `pool_size` mappers that share `workers_count` worker
    /// threads.
    pub fn build<T: Send>(&self) -> (r: MapperPool<T>)
        ensures
            r.wf(),
            r.idle() == self.pool_size,
            r.workers() == self.workers_count,
    {
        let threadpool = ThreadPool::new(self.workers_count);
        let factory = MapperFactory { threadpool, storage_size: self.storage_size };
        MapperPool { pool: Pool::new(self.pool_size, factory), workers: self.workers_count }
    }
}

impl Default for MapperPoolBuilder {
    fn default() -> (r: Self)
        ensures
            r.pool_size == 0,
            r.storage_size == 0,
            r.workers_count >= 1,
    {
        Self::new()
    }
}

} // verus!
