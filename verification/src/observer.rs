//! The observer pattern as a simple wrapper structure.
//!
//! An [`Observe`] cell owns a value and an ordered registry of subscriber
//! functions. A subscriber holds no state of its own: it is a pure function
//! from a caller-supplied context and the new value to an updated context,
//! and every persistent effect belongs in that context. Each subscriber is
//! registered under a caller-chosen stable identifier, and the registry never
//! holds two entries under one identifier.
//!
//! A subscriber may itself re-enter the cell it is subscribed to through the
//! context: nothing guards against that, and the dependency operations
//! therefore iterate over a snapshot of the registry taken before the first
//! invocation, so that a dispatch in flight never observes registry changes
//! of its own making.
use vstd::prelude::*;
use vstd::std_specs::cmp::PartialEqSpec;

verus! {

broadcast use vstd::seq::group_seq_axioms, vstd::seq_lib::group_seq_lib_default;

/// A value holder with an ordered, deduplicated subscriber registry, where a
/// subscriber is invoked with a context of type `C` and a copy of the new
/// value whenever the value is set.
#[derive(Clone)]
pub struct Observe<T, F> {
    value: T,
    subscribers: Vec<(u64, F)>,
}

impl<T: Default, F> Default for Observe<T, F> {
    /// Construct a default observer with no subscribers.
    fn default() -> (r: Self)
        ensures
            r.subs() == Seq::<(u64, F)>::empty(),
            call_ensures(T::default, (), r.spec_value()),
    {
        Observe { value: T::default(), subscribers: Vec::new() }
    }
}

/// Every registered function accepts every context and every value: what a
/// stateless subscriber is expected to do.
pub open spec fn subs_callable<T, C, F: Fn(C, T) -> C>(fns: Seq<F>) -> bool {
    forall|i: int, c: C, v: T| 0 <= i < fns.len() ==> call_requires(fns[i], (c, v))
}

/// One notification cascade: `c1` is reachable from `c0` by invoking each
/// function of `fns` once, in order, each on the context the previous one
/// returned, always with the value `v`.
pub open spec fn notify_rel<C, T, F: Fn(C, T) -> C>(fns: Seq<F>, c0: C, v: T, c1: C) -> bool
    decreases fns.len(),
{
    if fns.len() == 0 {
        c1 == c0
    } else {
        exists|mid: C| #[trigger]
            call_ensures(fns[0], (c0, v), mid) && notify_rel(fns.drop_first(), mid, v, c1)
    }
}

/// What `subscribe` does: a no-op when the identifier is already registered,
/// an append otherwise; the value is untouched either way.
pub open spec fn subscribe_effect<T, F>(
    pre: Observe<T, F>,
    post: Observe<T, F>,
    id: u64,
    f: F,
) -> bool {
    &&& post.spec_value() == pre.spec_value()
    &&& if pre.has_sub(id) {
        post.subs() == pre.subs()
    } else {
        post.subs() == pre.subs().push((id, f))
    }
}

/// Position `i` holds the first entry registered under `id`.
pub open spec fn first_sub<F>(subs: Seq<(u64, F)>, id: u64, i: int) -> bool {
    &&& 0 <= i < subs.len()
    &&& subs[i].0 == id
    &&& forall|j: int| 0 <= j < i ==> subs[j].0 != id
}

/// What `unsubscribe` does: a no-op when the identifier is not registered,
/// the removal of its first entry otherwise; the value is untouched.
pub open spec fn unsubscribe_effect<T, F>(pre: Observe<T, F>, post: Observe<T, F>, id: u64) -> bool {
    &&& post.spec_value() == pre.spec_value()
    &&& if pre.has_sub(id) {
        exists|i: int| #[trigger] first_sub(pre.subs(), id, i) && post.subs() == pre.subs().remove(i)
    } else {
        post.subs() == pre.subs()
    }
}

/// What `set` does: the value is replaced, the registry is untouched, and
/// the returned context is one notification cascade away from the given one.
pub open spec fn set_effect<T, C, F: Fn(C, T) -> C>(
    pre: Observe<T, F>,
    post: Observe<T, F>,
    value: T,
    c0: C,
    c1: C,
) -> bool {
    &&& post.spec_value() == value
    &&& post.subs() == pre.subs()
    &&& notify_rel(pre.sub_fns(), c0, value, c1)
}

/// What `compare_and_set` does: nothing at all when the cell already holds
/// an equal value, exactly what `set` does otherwise.
pub open spec fn cas_effect<T: PartialEq, C, F: Fn(C, T) -> C>(
    pre: Observe<T, F>,
    post: Observe<T, F>,
    value: T,
    c0: C,
    c1: C,
) -> bool {
    if pre.spec_value().eq_spec(&value) {
        post == pre && c1 == c0
    } else {
        set_effect(pre, post, value, c0, c1)
    }
}

/// What the mutate-and-notify half of the dependency operations does: some
/// cell holding `value` and the subscribers of `cell` is handed to `setter`
/// in place of `ctx`, and the returned context is one notification cascade
/// over `cell`'s subscribers away from what `setter` returned.
pub open spec fn dep_set_effect<T, C, F: Fn(C, T) -> C, S: Fn(C, Observe<T, F>) -> C>(
    cell: Observe<T, F>,
    ctx: C,
    setter: S,
    value: T,
    r: C,
) -> bool {
    exists|cell2: Observe<T, F>, c1: C|
        {
            &&& cell2.spec_value() == value
            &&& cell2.subs() == cell.subs()
            &&& #[trigger] call_ensures(setter, (ctx, cell2), c1)
            &&& notify_rel(cell.sub_fns(), c1, value, r)
        }
}

impl<T, F> Observe<T, F> {
    /// The stored value.
    pub closed spec fn spec_value(self) -> T {
        self.value
    }

    /// The registry: identifier and subscriber, in registration order.
    pub closed spec fn subs(self) -> Seq<(u64, F)> {
        self.subscribers@
    }

    /// The registered subscriber functions alone, in registration order.
    pub open spec fn sub_fns(self) -> Seq<F> {
        self.subs().map_values(|p: (u64, F)| p.1)
    }

    /// Whether some subscriber is registered under `id`.
    pub open spec fn has_sub(self, id: u64) -> bool {
        exists|i: int| 0 <= i < self.subs().len() && (#[trigger] self.subs()[i]).0 == id
    }
}

impl<T: Copy, F: Copy> Observe<T, F> {
    /// Create a new value without subscribers.
    pub fn new(value: T) -> (r: Self)
        ensures
            r.spec_value() == value,
            r.subs() == Seq::<(u64, F)>::empty(),
    {
        Observe { value, subscribers: Vec::new() }
    }

    /// Get the contained value. No direct access is given, so no mutation
    /// path bypasses notification.
    pub fn get(&self) -> (r: &T)
        ensures
            *r == self.spec_value(),
    {
        &self.value
    }

    /// Count the registered subscribers.
    pub fn count_subscribers(&self) -> (r: usize)
        ensures
            r == self.subs().len(),
    {
        self.subscribers.len()
    }

    /// The position of the first subscriber registered under `id`, if any.
    fn find_subscriber(&self, id: u64) -> (r: Option<usize>)
        ensures
            match r {
                Some(i) => first_sub(self.subs(), id, i as int),
                None => !self.has_sub(id),
            },
    {
        let mut i: usize = 0;
        while i < self.subscribers.len()
            invariant
                i <= self.subs().len(),
                forall|j: int| 0 <= j < i ==> (#[trigger] self.subs()[j]).0 != id,
            decreases self.subs().len() - i,
        {
            if self.subscribers[i].0 == id {
                return Some(i);
            }
            i += 1;
        }
        None
    }

    /// Register `function` under `id`, unless `id` is already registered; the
    /// registry keeps at most one entry per identifier.
    pub fn subscribe(&mut self, id: u64, function: F)
        ensures
            subscribe_effect(*old(self), *final(self), id, function),
    {
        if self.find_subscriber(id).is_none() {
            self.subscribers.push((id, function));
        }
    }

    /// Remove the subscriber registered under `id`, if any.
    pub fn unsubscribe(&mut self, id: u64)
        ensures
            unsubscribe_effect(*old(self), *final(self), id),
    {
        match self.find_subscriber(id) {
            Some(i) => {
                self.subscribers.remove(i);
            },
            None => {},
        }
    }
}

/// Invoke every subscriber of `subs` once, in order, threading the context
/// through and handing each a copy of `value`.
fn notify_all<T: Copy, C, F: Fn(C, T) -> C + Copy>(subs: &Vec<(u64, F)>, ctx: C, value: T) -> (r:
    C)
    requires
        subs_callable::<T, C, F>(subs@.map_values(|p: (u64, F)| p.1)),
    ensures
        notify_rel(subs@.map_values(|p: (u64, F)| p.1), ctx, value, r),
{
    let ghost fns = subs@.map_values(|p: (u64, F)| p.1);
    let ghost c0 = ctx;
    let mut c = ctx;
    let mut i: usize = 0;
    while i < subs.len()
        invariant
            i <= subs@.len(),
            fns == subs@.map_values(|p: (u64, F)| p.1),
            subs_callable::<T, C, F>(fns),
            notify_rel(fns.take(i as int), c0, value, c),
        decreases subs@.len() - i,
    {
        let f = subs[i].1;
        proof {
            assert(fns[i as int] == subs@[i as int].1);
        }
        let c2 = f(c, value);
        proof {
            lemma_notify_rel_snoc(fns.take(i as int), fns[i as int], c0, value, c, c2);
            assert(fns.take(i as int).push(fns[i as int]) =~= fns.take(i as int + 1));
        }
        c = c2;
        i += 1;
    }
    proof {
        assert(fns.take(fns.len() as int) =~= fns);
    }
    c
}

/// Copy a subscriber registry entry for entry.
fn copy_subs<F: Copy>(subs: &Vec<(u64, F)>) -> (r: Vec<(u64, F)>)
    ensures
        r@ == subs@,
{
    let mut out: Vec<(u64, F)> = Vec::new();
    let mut i: usize = 0;
    while i < subs.len()
        invariant
            i <= subs@.len(),
            out@.len() == i,
            forall|j: int| 0 <= j < i ==> out@[j] == subs@[j],
        decreases subs@.len() - i,
    {
        out.push(subs[i]);
        i += 1;
    }
    proof {
        assert(out@ =~= subs@);
    }
    out
}

impl<T: Copy, F: Copy> Observe<T, F> {
    /// Set the value and invoke every registered subscriber, in registration
    /// order, handing each the context the previous one returned and a copy
    /// of the new value. The subscribers run even when the new value equals
    /// the old one.
    pub fn set<C>(&mut self, value: T, ctx: C) -> (r: C) where F: Fn(C, T) -> C
        requires
            subs_callable::<T, C, F>(old(self).sub_fns()),
        ensures
            set_effect(*old(self), *final(self), value, ctx, r),
    {
        self.value = value;
        notify_all(&self.subscribers, ctx, value)
    }

    /// Call `set` only when `value` differs from the stored value; otherwise
    /// neither the cell nor the context is touched and no subscriber runs.
    pub fn compare_and_set<C>(&mut self, value: T, ctx: C) -> (r: C) where
        F: Fn(C, T) -> C,
        T: PartialEq,

        requires
            T::obeys_eq_spec(),
            subs_callable::<T, C, F>(old(self).sub_fns()),
        ensures
            cas_effect(*old(self), *final(self), value, ctx, r),
    {
        if self.value != value {
            self.set(value, ctx)
        } else {
            ctx
        }
    }

    /// The mutate-and-notify step shared by the dependency operations, for a
    /// cell already read out of the context.
    fn dep_set_with<C, S>(cell: Observe<T, F>, ctx: C, setter: S, value: T) -> (r: C) where
        F: Fn(C, T) -> C,
        S: Fn(C, Observe<T, F>) -> C,

        requires
            forall|c: C, cl: Observe<T, F>| call_requires(setter, (c, cl)),
            subs_callable::<T, C, F>(cell.sub_fns()),
        ensures
            dep_set_effect(cell, ctx, setter, value, r),
    {
        let Observe { value: _, subscribers } = cell;
        let snapshot = copy_subs(&subscribers);
        let cell2 = Observe { value, subscribers };
        let c1 = setter(ctx, cell2);
        notify_all(&snapshot, c1, value)
    }

    /// For when the subscribers depend on the larger context that the cell
    /// sits in, rather than on the cell alone: read the cell out of the
    /// context through `getter`, write it back through `setter` with `value`
    /// stored, then invoke a snapshot of its subscribers, in order, against
    /// the whole context. The subscribers run whether or not the value is
    /// new; a subscriber that changes the registry mid-cascade is not
    /// observed by the cascade itself.
    pub fn dependency_set<C, G, S>(ctx: C, getter: G, setter: S, value: T) -> (r: C) where
        F: Fn(C, T) -> C,
        G: Fn(&C) -> Observe<T, F>,
        S: Fn(C, Observe<T, F>) -> C,

        requires
            call_requires(getter, (&ctx,)),
            forall|c: C, cl: Observe<T, F>| call_requires(setter, (c, cl)),
            forall|cell: Observe<T, F>| #[trigger]
                call_ensures(getter, (&ctx,), cell) ==> subs_callable::<T, C, F>(cell.sub_fns()),
        ensures
            exists|cell: Observe<T, F>| #[trigger]
                call_ensures(getter, (&ctx,), cell) && dep_set_effect(cell, ctx, setter, value, r),
    {
        let cell = getter(&ctx);
        Self::dep_set_with(cell, ctx, setter, value)
    }

    /// The equality-gated variant of `dependency_set`: the cell is read
    /// through `getter`, and only when `value` differs from its stored value
    /// does the mutate-and-notify step run; otherwise the context is handed
    /// back untouched.
    pub fn dependency_compare_and_set<C, G, S>(ctx: C, getter: G, setter: S, value: T) -> (r:
        C) where
        F: Fn(C, T) -> C,
        G: Fn(&C) -> Observe<T, F>,
        S: Fn(C, Observe<T, F>) -> C,
        T: PartialEq,

        requires
            T::obeys_eq_spec(),
            call_requires(getter, (&ctx,)),
            forall|c: C, cl: Observe<T, F>| call_requires(setter, (c, cl)),
            forall|cell: Observe<T, F>| #[trigger]
                call_ensures(getter, (&ctx,), cell) ==> subs_callable::<T, C, F>(cell.sub_fns()),
        ensures
            exists|cell: Observe<T, F>| #[trigger]
                call_ensures(getter, (&ctx,), cell) && (if cell.spec_value().eq_spec(&value) {
                    r == ctx
                } else {
                    dep_set_effect(cell, ctx, setter, value, r)
                }),
    {
        let cell = getter(&ctx);
        if cell.value != value {
            Self::dep_set_with(cell, ctx, setter, value)
        } else {
            ctx
        }
    }
}

proof fn lemma_notify_rel_snoc<C, T, F: Fn(C, T) -> C>(
    fns: Seq<F>,
    f: F,
    c0: C,
    v: T,
    c1: C,
    c2: C,
)
    requires
        notify_rel(fns, c0, v, c1),
        call_ensures(f, (c1, v), c2),
    ensures
        notify_rel(fns.push(f), c0, v, c2),
    decreases fns.len(),
{
    if fns.len() == 0 {
        assert(fns.push(f).drop_first() =~= Seq::<F>::empty());
        assert(call_ensures(fns.push(f)[0], (c0, v), c2) && notify_rel(
            fns.push(f).drop_first(),
            c2,
            v,
            c2,
        ));
    } else {
        let mid = choose|m: C| #[trigger]
            call_ensures(fns[0], (c0, v), m) && notify_rel(fns.drop_first(), m, v, c1);
        lemma_notify_rel_snoc(fns.drop_first(), f, mid, v, c1, c2);
        assert(fns.push(f).drop_first() =~= fns.drop_first().push(f));
        assert(call_ensures(fns.push(f)[0], (c0, v), mid) && notify_rel(
            fns.push(f).drop_first(),
            mid,
            v,
            c2,
        ));
    }
}

/// Law: subscribing under an identifier that is already registered leaves
/// the registry exactly as it was; in particular, subscribing the same
/// identifier twice to a fresh cell registers one subscriber, not two.
pub proof fn lemma_subscribe_twice<T, F>(
    o0: Observe<T, F>,
    o1: Observe<T, F>,
    o2: Observe<T, F>,
    id: u64,
    f: F,
)
    requires
        subscribe_effect(o0, o1, id, f),
        subscribe_effect(o1, o2, id, f),
    ensures
        o2.subs() == o1.subs(),
        o0.subs().len() == 0 ==> o1.subs().len() == 1,
{
    if o0.has_sub(id) {
        let i = choose|i: int| 0 <= i < o0.subs().len() && (#[trigger] o0.subs()[i]).0 == id;
        assert(o1.subs()[i].0 == id);
    } else {
        let i = o0.subs().len() as int;
        assert(o1.subs()[i].0 == id);
    }
}

/// Law: with a single registered subscriber, one notification cascade is one
/// invocation exactly: the final context is one application of that
/// subscriber to the starting context.
pub proof fn lemma_notify_single<C, T, F: Fn(C, T) -> C>(fns: Seq<F>, c0: C, v: T, c1: C)
    requires
        fns.len() == 1,
        notify_rel(fns, c0, v, c1),
    ensures
        call_ensures(fns[0], (c0, v), c1),
{
    let mid = choose|m: C| #[trigger]
        call_ensures(fns[0], (c0, v), m) && notify_rel(fns.drop_first(), m, v, c1);
    assert(c1 == mid);
}

/// Law: once a `compare_and_set` has run, every further `compare_and_set`
/// with the same value is a no-op, whether or not the first call stored the
/// value: across the whole repetition the subscribers are notified at most
/// once. Asks that `==` on the value type be reflexive at the value, as
/// every equivalence is.
pub proof fn lemma_compare_and_set_repeat<T: PartialEq, C, F: Fn(C, T) -> C>(
    o0: Observe<T, F>,
    o1: Observe<T, F>,
    o2: Observe<T, F>,
    value: T,
    ctx1: C,
    r1: C,
    ctx2: C,
    r2: C,
)
    requires
        value.eq_spec(&value),
        cas_effect(o0, o1, value, ctx1, r1),
        cas_effect(o1, o2, value, ctx2, r2),
    ensures
        o2 == o1,
        r2 == ctx2,
{
}

/// Law: `dependency_set` notifies on every call, whether or not the value is
/// new: its effect always contains one full cascade over the subscribers of
/// the cell that was read, so calling it a number of times with identical
/// values notifies that many times.
pub proof fn lemma_dependency_set_always_notifies<
    T,
    C,
    F: Fn(C, T) -> C,
    S: Fn(C, Observe<T, F>) -> C,
>(cell: Observe<T, F>, ctx: C, setter: S, value: T, r: C)
    requires
        dep_set_effect(cell, ctx, setter, value, r),
    ensures
        exists|c1: C| #[trigger] notify_rel(cell.sub_fns(), c1, value, r),
{
    let (cell2, c1) = choose|cell2: Observe<T, F>, c1: C|
        {
            &&& cell2.spec_value() == value
            &&& cell2.subs() == cell.subs()
            &&& #[trigger] call_ensures(setter, (ctx, cell2), c1)
            &&& notify_rel(cell.sub_fns(), c1, value, r)
        };
    assert(notify_rel(cell.sub_fns(), c1, value, r));
}

/// Law: a `dependency_compare_and_set` against a context whose cell already
/// holds the value hands the context back untouched: no setter runs and no
/// subscriber is notified.
pub proof fn lemma_dependency_compare_and_set_idle<
    T: PartialEq,
    C,
    F: Fn(C, T) -> C,
    G: Fn(&C) -> Observe<T, F>,
    S: Fn(C, Observe<T, F>) -> C,
>(ctx: C, getter: G, setter: S, value: T, r: C)
    requires
        forall|cell: Observe<T, F>| #[trigger]
            call_ensures(getter, (&ctx,), cell) ==> cell.spec_value().eq_spec(&value),
        exists|cell: Observe<T, F>| #[trigger]
            call_ensures(getter, (&ctx,), cell) && (if cell.spec_value().eq_spec(&value) {
                r == ctx
            } else {
                dep_set_effect(cell, ctx, setter, value, r)
            }),
    ensures
        r == ctx,
{
}

} // verus!

