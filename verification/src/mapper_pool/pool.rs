//! A stock of reusable things: what is taken is made on demand where the
//! stock is empty, so the stock may lose things without harm.

use vstd::prelude::*;

verus! {

/// What makes the things of a pool.
pub trait Factory<T> {
    /// Whether `make` may be called.
    spec fn ready(&self) -> bool;

    /// Whether `make` may give `made`.
    spec fn makes(&self, made: T) -> bool;

    fn make(&self) -> (made: T)
        requires
            self.ready(),
        ensures
            self.makes(made),
    ;
}

impl<T, F: Fn() -> T> Factory<T> for F {
    open spec fn ready(&self) -> bool {
        call_requires(*self, ())
    }

    open spec fn makes(&self, made: T) -> bool {
        call_ensures(*self, (), made)
    }

    fn make(&self) -> (made: T) {
        self()
    }
}

/// A stock of things and what makes more of them.
pub struct Pool<T, F: Factory<T>> {
    pool: Vec<T>,
    factory: F,
}

impl<T, F: Factory<T>> View for Pool<T, F> {
    type V = Seq<T>;

    /// What is in stock, the latest last.
    closed spec fn view(&self) -> Seq<T> {
        self.pool@
    }
}

impl<T, F: Factory<T>> Pool<T, F> {
    /// What makes the things of this pool.
    pub closed spec fn factory(&self) -> F {
        self.factory
    }

    /// A pool with `pool_size` things in stock, all made by `factory`.
    pub fn new(pool_size: usize, factory: F) -> (r: Self)
        requires
            factory.ready(),
        ensures
            r.factory() == factory,
            r@.len() == pool_size,
            forall|i: int| 0 <= i < r@.len() ==> factory.makes(#[trigger] r@[i]),
    {
        let mut result = Self { pool: Vec::new(), factory };
        result.put_n(pool_size);
        result
    }

    /// Takes the latest thing out of the stock, or makes one where the
    /// stock is empty.
    pub fn get(&mut self) -> (r: T)
        requires
            old(self).factory().ready(),
        ensures
            final(self).factory() == old(self).factory(),
            old(self)@.len() > 0 ==> r == old(self)@.last() && final(self)@ == old(
                self,
            )@.drop_last(),
            old(self)@.len() == 0 ==> old(self).factory().makes(r) && final(self)@ == old(self)@,
    {
        match self.pool.pop() {
            Some(found) => found,
            None => self.factory.make(),
        }
    }

    /// Puts a thing into the stock.
    pub fn put(&mut self, new: T)
        ensures
            final(self).factory() == old(self).factory(),
            final(self)@ == old(self)@.push(new),
    {
        self.pool.push(new)
    }

    /// Makes `count` things and puts them into the stock.
    pub fn put_n(&mut self, count: usize)
        requires
            old(self).factory().ready(),
        ensures
            final(self).factory() == old(self).factory(),
            final(self)@.len() == old(self)@.len() + count,
            final(self)@.subrange(0, old(self)@.len() as int) == old(self)@,
            forall|i: int|
                old(self)@.len() <= i < final(self)@.len() ==> old(self).factory().makes(
                    #[trigger] final(self)@[i],
                ),
    {
        let mut made: usize = 0;
        assert(self@.subrange(0, old(self)@.len() as int) =~= old(self)@);
        while made < count
            invariant
                made <= count,
                self.factory == old(self).factory,
                self.factory.ready(),
                self@.len() == old(self)@.len() + made,
                self@.subrange(0, old(self)@.len() as int) == old(self)@,
                forall|i: int|
                    old(self)@.len() <= i < self@.len() ==> old(self).factory().makes(
                        #[trigger] self@[i],
                    ),
            decreases count - made,
        {
            let ghost before = self@;
            let new = self.factory.make();
            self.pool.push(new);
            made = made + 1;
            assert(self@.subrange(0, old(self)@.len() as int) =~= before.subrange(
                0,
                old(self)@.len() as int,
            ));
        }
    }
}

} // verus!
