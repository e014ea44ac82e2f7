//! A persistent singly linked list. Nodes are immutable and shared by
//! reference count, so a list and every tail taken from it can be used
//! independently of each other.
//!
//! The model of a list is the sequence of its elements, head first.

use replace_with::replace_with_or_abort_and_return;
use std::sync::Arc;
use vstd::prelude::*;
use vstd::std_specs::cmp::PartialEqSpec;

verus! {

/// A chain of nodes: nothing, or a shared handle to the first node.
pub type Link<T> = Option<Arc<ListNode<T>>>;

/// A node: a shared handle to an element, and what follows.
#[derive(Debug)]
pub struct ListNode<T> {
    pub val: Arc<T>,
    pub next: Link<T>,
}

/// A chain of nodes together with a count of them.
#[derive(Debug)]
struct Chain<T> {
    head: Link<T>,
    length: usize,
}

/// A persistent list: a chain of nodes and a count of them.
#[derive(Debug)]
pub struct List<T> {
    chain: Chain<T>,
}

/// The elements held by the chain of nodes that starts at `link`.
pub open spec fn link_seq<T>(link: Link<T>) -> Seq<T>
    decreases link,
{
    match link {
        None => Seq::empty(),
        Some(node) => seq![*node.val] + link_seq(node.next),
    }
}

/// The number of nodes in the chain that starts at `link`.
pub open spec fn node_count<T>(link: Link<T>) -> nat
    decreases link,
{
    match link {
        None => 0,
        Some(node) => 1 + node_count(node.next),
    }
}

/// What follows the first node of a chain; nothing follows an empty chain.
pub open spec fn next_link<T>(link: Link<T>) -> Link<T> {
    match link {
        None => None,
        Some(node) => node.next,
    }
}

/// `x` put in front of `xs`.
pub open spec fn cons_seq<T>(x: T, xs: Seq<T>) -> Seq<T> {
    seq![x] + xs
}

/// The first element of `xs`, if there is one.
pub open spec fn head_seq<T>(xs: Seq<T>) -> Option<T> {
    if xs.len() == 0 {
        None
    } else {
        Some(xs[0])
    }
}

/// All of `xs` but its first element, if there is one.
pub open spec fn tail_seq<T>(xs: Seq<T>) -> Option<Seq<T>> {
    if xs.len() == 0 {
        None
    } else {
        Some(xs.subrange(1, xs.len() as int))
    }
}

/// The last element of `xs`, if there is one.
pub open spec fn last_seq<T>(xs: Seq<T>) -> Option<T> {
    if xs.len() == 0 {
        None
    } else {
        Some(xs[xs.len() - 1])
    }
}

/// Whether `xs` and `ys` agree, by `T`'s own equality, on every position
/// that both have.
pub open spec fn common_prefix_eq<T: PartialEq>(xs: Seq<T>, ys: Seq<T>) -> bool {
    forall|i: int| 0 <= i < xs.len() && i < ys.len() ==> (#[trigger] xs[i]).eq_spec(&ys[i])
}

/// A chain holds as many elements as it has nodes.
pub proof fn lemma_link_seq_len<T>(link: Link<T>)
    ensures
        link_seq(link).len() == node_count(link),
    decreases link,
{
    if link is Some {
        let next = link->0.next;
        lemma_link_seq_len(next);
    }
}

proof fn lemma_link_seq_tail<T>(link: Link<T>)
    requires
        link is Some,
    ensures
        link_seq(link).len() > 0,
        link_seq(link)[0] == *link->0.val,
        link_seq(link).subrange(1, link_seq(link).len() as int) == link_seq(link->0.next),
{
    let node = link->0;
    assert(link_seq(link) == seq![*node.val] + link_seq(node.next));
    assert(link_seq(link).subrange(1, link_seq(link).len() as int) =~= link_seq(node.next));
}

proof fn lemma_link_element_decreases<T>(link: Link<T>, i: int)
    requires
        0 <= i < link_seq(link).len(),
    ensures
        decreases_to!(link => link_seq(link)[i]),
    decreases i,
{
    lemma_link_seq_tail(link);
    if i > 0 {
        let next = link->0.next;
        lemma_link_element_decreases(next, i - 1);
        assert(link_seq(link)[i] == link_seq(next)[i - 1]);
    }
}

/// `Arc::clone`: the new handle points at the same value.
#[verifier::external_body]
pub(crate) fn share<T>(a: &Arc<T>) -> (r: Arc<T>)
    ensures
        r == *a,
    opens_invariants none
    no_unwind
{
    a.clone()
}

/// `Arc::try_unwrap`: the value itself where this handle is the only one
/// to it, else the handle again.
#[verifier::external_body]
fn sole_owner<T>(a: Arc<T>) -> (r: Result<T, Arc<T>>)
    ensures
        match r {
            Ok(inner) => inner == *a,
            Err(shared) => shared == a,
        },
    opens_invariants none
    no_unwind
{
    Arc::try_unwrap(a)
}

fn share_link<T>(link: &Link<T>) -> (r: Link<T>)
    ensures
        r == *link,
    opens_invariants none
    no_unwind
{
    match link {
        None => None,
        Some(node) => Some(share(node)),
    }
}

/// A chain without its first node, counted one less; the empty chain
/// stays as it is.
spec fn rest_of<T>(chain: Chain<T>) -> Chain<T> {
    Chain {
        head: next_link(chain.head),
        length: if chain.length > 0 {
            (chain.length - 1) as usize
        } else {
            0
        },
    }
}

/// Splits a chain into its first node and what follows it.
fn split_chain<T>(chain: Chain<T>) -> (r: (Link<T>, Chain<T>))
    ensures
        r.0 == chain.head,
        r.1 == rest_of(chain),
    opens_invariants none
    no_unwind
{
    let Chain { head, length } = chain;
    let length = if length > 0 {
        length - 1
    } else {
        0
    };
    match head {
        None => (None, Chain { head: None, length }),
        Some(node) => {
            let next = share_link(&node.next);
            (Some(node), Chain { head: next, length })
        },
    }
}

/// `replace_with::replace_with_or_abort_and_return`: the value at `chain`
/// is moved out and handed to the closure; the second part of what the
/// closure gives is stored at `chain` and the first part is returned. The
/// closure here is `split_chain`, so the first node is returned and `chain`
/// moves on to what followed it.
#[verifier::external_body]
fn detach<T>(chain: &mut Chain<T>) -> (r: Link<T>)
    ensures
        r == old(chain).head,
        *final(chain) == rest_of(*old(chain)),
    opens_invariants none
    no_unwind
{
    replace_with_or_abort_and_return(chain, |whole| split_chain(whole))
}

impl<T> View for List<T> {
    type V = Seq<T>;

    closed spec fn view(&self) -> Seq<T> {
        link_seq(self.chain.head)
    }
}

impl<T> List<T> {
    #[verifier::type_invariant]
    spec fn counted(self) -> bool {
        self.chain.length == node_count(self.chain.head)
    }

    /// The chain of nodes behind this list.
    pub closed spec fn nodes(self) -> Link<T> {
        self.chain.head
    }

    /// The model of a list is the elements of its chain of nodes.
    pub proof fn lemma_view_is_nodes(self)
        ensures
            self@ == link_seq(self.nodes()),
            self@.len() == node_count(self.nodes()),
    {
        lemma_link_seq_len(self.chain.head);
    }

    /// The chain of nodes is a part of the list, so a recursion that goes
    /// from a list to its nodes goes down.
    pub proof fn lemma_nodes_decrease(self)
        ensures
            decreases_to!(self => self.nodes()),
    {
    }

    /// Every element is a part of the list, so a recursion that goes from
    /// a list to one of its elements goes down.
    pub proof fn lemma_element_decreases(self, i: int)
        requires
            0 <= i < self@.len(),
        ensures
            decreases_to!(self => self@[i]),
    {
        lemma_link_element_decreases(self.chain.head, i);
    }

    /// The empty list.
    pub fn new() -> (r: Self)
        ensures
            r@ == Seq::<T>::empty(),
    {
        List { chain: Chain { head: None, length: 0 } }
    }

    /// The number of elements, which is the number of nodes.
    pub fn len(&self) -> (n: usize)
        ensures
            n == self@.len(),
            n == node_count(self.nodes()),
    {
        proof {
            use_type_invariant(self);
            lemma_link_seq_len(self.chain.head);
        }
        self.chain.length
    }

    /// A list with `val` in front of this one's elements; this list is
    /// left as it was and its nodes are shared.
    pub fn cons(&self, val: T) -> (r: Self)
        requires
            self@.len() < usize::MAX,
        ensures
            r@ == cons_seq(val, self@),
    {
        self.cons_arc(Arc::new(val))
    }

    /// `cons` for an element that is already behind a shared handle.
    pub fn cons_arc(&self, val: Arc<T>) -> (r: Self)
        requires
            self@.len() < usize::MAX,
        ensures
            r@ == cons_seq(*val, self@),
    {
        proof {
            use_type_invariant(self);
            lemma_link_seq_len(self.chain.head);
        }
        List {
            chain: Chain {
                head: Some(Arc::new(ListNode { val, next: share_link(&self.chain.head) })),
                length: self.chain.length + 1,
            },
        }
    }

    /// `cons`, or `None` where one more element cannot be counted.
    pub fn try_cons_arc(&self, val: Arc<T>) -> (r: Option<Self>)
        ensures
            self@.len() < usize::MAX ==> r is Some && r->0@ == cons_seq(*val, self@),
            self@.len() >= usize::MAX ==> r is None,
    {
        if self.len() < usize::MAX {
            Some(self.cons_arc(val))
        } else {
            None
        }
    }

    /// The first element, or `None` for the empty list.
    pub fn head(&self) -> (r: Option<Arc<T>>)
        ensures
            r is Some <==> self@.len() > 0,
            r matches Some(val) ==> Some(*val) == head_seq(self@),
    {
        match &self.chain.head {
            None => None,
            Some(node) => {
                proof {
                    lemma_link_seq_tail(self.chain.head);
                }
                Some(share(&node.val))
            },
        }
    }

    /// All but the first element, or `None` for the empty list; the nodes are
    /// shared.
    pub fn tail(&self) -> (r: Option<Self>)
        ensures
            r is Some <==> self@.len() > 0,
            r matches Some(rest) ==> Some(rest@) == tail_seq(self@),
    {
        proof {
            use_type_invariant(self);
        }
        match &self.chain.head {
            None => None,
            Some(node) => {
                proof {
                    lemma_link_seq_tail(self.chain.head);
                }
                Some(List { chain: Chain { head: share_link(&node.next), length: self.chain.length - 1 } })
            },
        }
    }

    /// The first element together with the rest, or `None` for the empty
    /// list.
    pub fn head_tail(&self) -> (r: Option<(Arc<T>, Self)>)
        ensures
            r is Some <==> self@.len() > 0,
            r matches Some(pair) ==> Some(*pair.0) == head_seq(self@) && Some(pair.1@) == tail_seq(
                self@,
            ),
    {
        proof {
            use_type_invariant(self);
        }
        match &self.chain.head {
            None => None,
            Some(node) => {
                proof {
                    lemma_link_seq_tail(self.chain.head);
                }
                Some(
                    (
                        share(&node.val),
                        List {
                            chain: Chain {
                                head: share_link(&node.next),
                                length: self.chain.length - 1,
                            },
                        },
                    ),
                )
            },
        }
    }

    /// The last element, or `None` for the empty list.
    pub fn last(&self) -> (r: Option<Arc<T>>)
        ensures
            r is Some <==> self@.len() > 0,
            r matches Some(val) ==> Some(*val) == last_seq(self@),
    {
        let mut found: Option<Arc<T>> = None;
        let mut cur = &self.chain.head;
        let ghost mut seen: int = 0;
        loop
            invariant
                0 <= seen <= self@.len(),
                link_seq(*cur) == self@.subrange(seen, self@.len() as int),
                found is Some <==> seen > 0,
                found matches Some(val) ==> *val == self@[seen - 1],
            ensures
                seen == self@.len(),
                found is Some <==> seen > 0,
                found matches Some(val) ==> *val == self@[seen - 1],
            decreases self@.len() - seen,
        {
            match cur {
                None => {
                    break ;
                },
                Some(node) => {
                    proof {
                        lemma_link_seq_tail(*cur);
                        assert(link_seq(node.next) =~= self@.subrange(
                            seen + 1,
                            self@.len() as int,
                        ));
                        assert(*node.val == self@.subrange(seen, self@.len() as int)[0]);
                        seen = seen + 1;
                    }
                    found = Some(share(&node.val));
                    cur = &node.next;
                },
            }
        }
        found
    }

    /// Takes the first node off this list and returns it; the list becomes
    /// its own tail. On the empty list nothing changes.
    pub fn pop_node(&mut self) -> (r: Link<T>)
        ensures
            r == old(self).nodes(),
            final(self).nodes() == next_link(old(self).nodes()),
            r is Some <==> old(self)@.len() > 0,
            r matches Some(node) ==> Some(*node.val) == head_seq(old(self)@) && Some(final(self)@)
                == tail_seq(old(self)@),
            r is None ==> final(self)@ == old(self)@,
        opens_invariants none
        no_unwind
    {
        proof {
            use_type_invariant(&*self);
            if self.chain.head is Some {
                lemma_link_seq_tail(self.chain.head);
            }
        }
        detach(&mut self.chain)
    }

    /// Takes the first element off this list and returns it; the list becomes
    /// its own tail. On the empty list nothing changes.
    pub fn pop(&mut self) -> (r: Option<Arc<T>>)
        ensures
            r is Some <==> old(self)@.len() > 0,
            r matches Some(val) ==> Some(*val) == head_seq(old(self)@) && Some(final(self)@)
                == tail_seq(old(self)@),
            r is None ==> final(self)@ == old(self)@,
    {
        match self.pop_node() {
            None => None,
            Some(node) => Some(share(&node.val)),
        }
    }

    /// The items consed one after another onto the empty list, so that the
    /// last item comes first.
    pub fn reverse_from_iter(items: Vec<T>) -> (r: Self)
        ensures
            r@ == items@.reverse(),
    {
        let ghost all = items@;
        let mut rest = Self::from_double_ended_iter(items);
        let count = rest.len();
        let mut result = Self::new();
        loop
            invariant
                all.len() == count,
                result@.len() + rest@.len() == all.len(),
                rest@ == all.subrange(result@.len() as int, all.len() as int),
                result@ == all.subrange(0, result@.len() as int).reverse(),
            ensures
                result@ == all.reverse(),
            decreases rest@.len(),
        {
            let ghost before = result@;
            match rest.pop() {
                None => {
                    assert(all.subrange(0, all.len() as int) =~= all);
                    break ;
                },
                Some(item) => {
                    result = result.cons_arc(item);
                    assert(rest@ =~= all.subrange(before.len() as int + 1, all.len() as int));
                    assert(result@ =~= all.subrange(0, before.len() as int + 1).reverse());
                },
            }
        }
        result
    }

    /// The list of the items in the order in which they were given.
    pub fn from_double_ended_iter(items: Vec<T>) -> (r: Self)
        ensures
            r@ == items@,
    {
        let mut items = items;
        let ghost all = items@;
        let count = items.len();
        let mut result = Self::new();
        while items.len() > 0
            invariant
                all.len() == count,
                items@ == all.subrange(0, items@.len() as int),
                result@ == all.subrange(items@.len() as int, all.len() as int),
                items@.len() <= all.len(),
            decreases items@.len(),
        {
            let item = items.pop().unwrap();
            result = result.cons(item);
            assert(result@ =~= all.subrange(items@.len() as int, all.len() as int));
        }
        assert(all.subrange(0, all.len() as int) =~= all);
        result
    }

    /// Shared handles to the elements, head first.
    pub fn to_vec(&self) -> (r: Vec<Arc<T>>)
        ensures
            r@.len() == self@.len(),
            forall|i: int| 0 <= i < r@.len() ==> *(#[trigger] r@[i]) == self@[i],
    {
        let mut r: Vec<Arc<T>> = Vec::new();
        let mut rest = self.iter();
        loop
            invariant
                r@.len() + rest@.len() == self@.len(),
                rest@ == self@.subrange(r@.len() as int, self@.len() as int),
                forall|i: int| 0 <= i < r@.len() ==> *(#[trigger] r@[i]) == self@[i],
            ensures
                r@.len() == self@.len(),
                forall|i: int| 0 <= i < r@.len() ==> *(#[trigger] r@[i]) == self@[i],
            decreases rest@.len(),
        {
            let ghost before = r@.len();
            match rest.next() {
                None => {
                    break ;
                },
                Some(item) => {
                    r.push(item);
                    assert(rest@ =~= self@.subrange(before as int + 1, self@.len() as int));
                },
            }
        }
        r
    }

    /// An iterator over shared handles to the elements, head first; the
    /// list itself is left as it was.
    pub fn iter(&self) -> (r: IntoIter<T>)
        ensures
            r@ == self@,
    {
        IntoIter(self.clone())
    }

    /// An iterator over shared handles to the elements, head first.
    pub fn into_iter(self) -> (r: IntoIter<T>)
        ensures
            r@ == self@,
    {
        IntoIter(self)
    }
}

impl<T: PartialEq> List<T> {
    /// Compares the two lists element by element as far as both reach.
    pub fn elems_eq(&self, other: &Self) -> (r: bool)
        ensures
            T::obeys_eq_spec() ==> r == common_prefix_eq(self@, other@),
    {
        let mut left = self.iter();
        let mut right = other.iter();
        let ghost mut seen: int = 0;
        loop
            invariant
                0 <= seen <= self@.len(),
                seen <= other@.len(),
                left@ == self@.subrange(seen, self@.len() as int),
                right@ == other@.subrange(seen, other@.len() as int),
                T::obeys_eq_spec() ==> forall|i: int|
                    0 <= i < seen ==> (#[trigger] self@[i]).eq_spec(&other@[i]),
            decreases self@.len() - seen,
        {
            match (left.next(), right.next()) {
                (Some(a), Some(b)) => {
                    assert(*a == self@[seen]);
                    assert(*b == other@[seen]);
                    assert(left@ =~= self@.subrange(seen + 1, self@.len() as int));
                    assert(right@ =~= other@.subrange(seen + 1, other@.len() as int));
                    if *a != *b {
                        return false;
                    }
                    proof {
                        seen = seen + 1;
                    }
                },
                _ => {
                    return true;
                },
            }
        }
    }
}

impl<T> Default for List<T> {
    fn default() -> (r: Self)
        ensures
            r@ == Seq::<T>::empty(),
    {
        Self::new()
    }
}

impl<T> Drop for List<T> {
    /// Releases the nodes one by one, so that a long chain is never freed
    /// by a chain of nested destructor calls. The first node that has
    /// another owner ends the walk: it keeps the rest alive.
    fn drop(&mut self)
        opens_invariants none
        no_unwind
    {
        loop
            invariant
                true,
            decreases self@.len(),
        {
            match self.pop_node() {
                None => {
                    break ;
                },
                Some(node) => {
                    match sole_owner(node) {
                        Ok(_) => {},
                        Err(_) => {
                            break ;
                        },
                    }
                },
            }
        }
    }
}

impl<T> Clone for List<T> {
    fn clone(&self) -> (r: Self)
        ensures
            r == *self,
    {
        proof {
            use_type_invariant(self);
        }
        List { chain: Chain { head: share_link(&self.chain.head), length: self.chain.length } }
    }
}

impl<T: PartialEq> PartialEq for List<T> {
    fn eq(&self, other: &Self) -> (r: bool) {
        self.len() == other.len() && self.elems_eq(other)
    }
}

impl<T: PartialEq> vstd::std_specs::cmp::PartialEqSpecImpl for List<T> {
    open spec fn obeys_eq_spec() -> bool {
        <T as PartialEqSpec>::obeys_eq_spec()
    }

    open spec fn eq_spec(&self, other: &Self) -> bool {
        self@.len() == other@.len() && common_prefix_eq(self@, other@)
    }
}

impl<T: Eq> Eq for List<T> {

}

/// The elements of a list that are still to come, head first.
pub struct IntoIter<T>(List<T>);

impl<T> View for IntoIter<T> {
    type V = Seq<T>;

    closed spec fn view(&self) -> Seq<T> {
        self.0@
    }
}

impl<T> IntoIter<T> {
    /// The next element, if one is left.
    pub fn next(&mut self) -> (r: Option<Arc<T>>)
        ensures
            r is Some <==> old(self)@.len() > 0,
            r matches Some(val) ==> Some(*val) == head_seq(old(self)@) && Some(final(self)@)
                == tail_seq(old(self)@),
            r is None ==> final(self)@ == old(self)@,
    {
        self.0.pop()
    }
}

/// The length of a list is the number of its nodes, and the tail of a list
/// that is not empty is shorter by one.
pub proof fn law_length<T>(xs: List<T>)
    ensures
        xs@.len() == node_count(xs.nodes()),
        xs@.len() > 0 ==> tail_seq(xs@) is Some && tail_seq(xs@)->0.len() == xs@.len() - 1,
{
    xs.lemma_view_is_nodes();
}

/// The head of `cons(x, xs)` is `x` and its tail is `xs`.
pub proof fn law_cons_head_tail<T>(x: T, xs: Seq<T>)
    ensures
        head_seq(cons_seq(x, xs)) == Some(x),
        tail_seq(cons_seq(x, xs)) == Some(xs),
{
    assert(cons_seq(x, xs).subrange(1, cons_seq(x, xs).len() as int) =~= xs);
}

} // verus!
