//! Lazy sequences built by repeatedly applying a step closure to a seed.
//!
//! `unfold` yields the infinite sequence `seed, f(seed), f(f(seed)), ...`
//! for a total step `f`; `try_unfold` yields the finite-or-infinite
//! sequence that stops, permanently, as soon as the step returns `None`.

use vstd::prelude::*;

verus! {

/// The result of applying `f` to `x`, `n` times over (`iterate(f, x, 0) == x`).
pub open spec fn iterate<T>(f: spec_fn(T) -> T, x: T, n: nat) -> T
    decreases n,
{
    if n == 0 {
        x
    } else {
        f(iterate(f, x, (n - 1) as nat))
    }
}

/// The `n`-th point of the partial orbit of `f` from `x`: `Some` while every
/// earlier step returned a value, and `None` from the first refusal onward
/// (`try_iterate(f, x, 0) == Some(x)`).
pub open spec fn try_iterate<T>(f: spec_fn(T) -> Option<T>, x: T, n: nat) -> Option<T>
    decreases n,
{
    if n == 0 {
        Some(x)
    } else {
        match try_iterate(f, x, (n - 1) as nat) {
            Some(y) => f(y),
            None => None,
        }
    }
}

/// An infinite lazy sequence: holds the next value to emit and the step
/// closure that computes each following value.
pub struct Unfold<T, F> {
    state: T,
    next: F,
    seed: Ghost<T>,
    produced: Ghost<Seq<T>>,
}

impl<T, F: Fn(&T) -> T> Unfold<T, F> {
    /// The step closure carried by the sequence.
    pub closed spec fn func(self) -> F {
        self.next
    }

    /// The seed the sequence was constructed from.
    pub closed spec fn seed(self) -> T {
        self.seed@
    }

    /// The values emitted so far, in order.
    pub closed spec fn produced(self) -> Seq<T> {
        self.produced@
    }

    /// The value the next call to `next` will emit.
    pub closed spec fn current(self) -> T {
        self.state
    }

    /// The emitted values start at the seed, each one is an output of the
    /// step closure on its predecessor, and the held value is an output of
    /// the step closure on the last emitted value.
    pub closed spec fn wf(self) -> bool {
        &&& self.produced@.len() == 0 ==> self.state == self.seed@
        &&& self.produced@.len() > 0 ==> {
            &&& self.produced@[0] == self.seed@
            &&& call_ensures(self.next, (&self.produced@.last(),), self.state)
        }
        &&& forall|k: int|
            1 <= k < self.produced@.len() ==> call_ensures(
                self.next,
                (&self.produced@[k - 1],),
                #[trigger] self.produced@[k],
            )
    }

    /// Emit the current value and advance the internal state by one
    /// application of the step closure. Always produces a value: the
    /// sequence never reports exhaustion.
    pub fn next(&mut self) -> (r: Option<T>)
        requires
            old(self).wf(),
            call_requires(old(self).func(), (&old(self).current(),)),
        ensures
            final(self).wf(),
            r == Some(old(self).current()),
            final(self).func() == old(self).func(),
            final(self).seed() == old(self).seed(),
            final(self).produced() == old(self).produced().push(old(self).current()),
            call_ensures(old(self).func(), (&old(self).current(),), final(self).current()),
    {
        let mut prev = (self.next)(&self.state);
        core::mem::swap(&mut self.state, &mut prev);
        self.produced = Ghost(self.produced@.push(prev));
        Some(prev)
    }
}

/// Build the infinite sequence `init, next(init), next(next(init)), ...`.
/// The closure is retained, not called: no work happens until `next`.
pub fn unfold<T, F: Fn(&T) -> T>(init: T, next: F) -> (r: Unfold<T, F>)
    ensures
        r.wf(),
        r.seed() == init,
        r.current() == init,
        r.produced() == Seq::<T>::empty(),
        r.func() == next,
{
    Unfold { seed: Ghost(init), produced: Ghost(Seq::empty()), state: init, next }
}

/// Law: the `k`-th value an unconditional sequence emits is `f` applied `k`
/// times to the seed, for every step closure whose outputs agree with the
/// mathematical step function `f`.
pub proof fn lemma_unfold_produces_iterates<T, F: Fn(&T) -> T>(
    it: Unfold<T, F>,
    f: spec_fn(T) -> T,
    k: int,
)
    requires
        it.wf(),
        forall|x: T, y: T| #[trigger] call_ensures(it.func(), (&x,), y) ==> y == f(x),
        0 <= k < it.produced().len(),
    ensures
        it.produced()[k] == iterate(f, it.seed(), k as nat),
    decreases k,
{
    if k > 0 {
        lemma_unfold_produces_iterates(it, f, k - 1);
        assert(call_ensures(it.func(), (&it.produced()[k - 1],), it.produced()[k]));
    }
}

/// A finite-or-infinite lazy sequence: holds the next value to emit, if any,
/// and the step closure whose `None` output ends the sequence for good.
pub struct TryUnfold<T, F> {
    state: Option<T>,
    next: F,
    seed: Ghost<T>,
    produced: Ghost<Seq<T>>,
}

impl<T, F: Fn(&T) -> Option<T>> TryUnfold<T, F> {
    /// The step closure carried by the sequence.
    pub closed spec fn func(self) -> F {
        self.next
    }

    /// The seed the sequence was constructed from.
    pub closed spec fn seed(self) -> T {
        self.seed@
    }

    /// The values emitted so far, in order.
    pub closed spec fn produced(self) -> Seq<T> {
        self.produced@
    }

    /// The value the next call to `next` will emit, or `None` once the
    /// sequence is exhausted.
    pub closed spec fn current(self) -> Option<T> {
        self.state
    }

    /// Whether the sequence has ended; exhaustion is permanent.
    pub open spec fn exhausted(self) -> bool {
        self.current() is None
    }

    /// The emitted values start at the seed, each one is wrapped in `Some`
    /// by some output of the step closure on its predecessor, and the held
    /// `Option` is itself an output of the step closure on the last emitted
    /// value — so an empty hold records that the closure declined to go on.
    pub closed spec fn wf(self) -> bool {
        &&& self.produced@.len() == 0 ==> self.state == Some(self.seed@)
        &&& self.produced@.len() > 0 ==> {
            &&& self.produced@[0] == self.seed@
            &&& call_ensures(self.next, (&self.produced@.last(),), self.state)
        }
        &&& forall|k: int|
            1 <= k < self.produced@.len() ==> call_ensures(
                self.next,
                (&self.produced@[k - 1],),
                Some(#[trigger] self.produced@[k]),
            )
    }

    /// Emit the held value, if any, and replace it by whatever the step
    /// closure returns on it. Once exhausted, the sequence reports `None`
    /// and stays exactly as it is: exhaustion is terminal and idempotent.
    pub fn next(&mut self) -> (r: Option<T>)
        requires
            old(self).wf(),
            old(self).current() matches Some(s) ==> call_requires(old(self).func(), (&s,)),
        ensures
            final(self).wf(),
            r == old(self).current(),
            final(self).func() == old(self).func(),
            final(self).seed() == old(self).seed(),
            old(self).exhausted() ==> *final(self) == *old(self),
            old(self).current() matches Some(p) ==> final(self).produced() == old(
                self,
            ).produced().push(p),
            old(self).current() matches Some(p) ==> call_ensures(
                old(self).func(),
                (&p,),
                final(self).current(),
            ),
    {
        match self.state.take() {
            None => None,
            Some(prev) => {
                self.state = (self.next)(&prev);
                self.produced = Ghost(self.produced@.push(prev));
                Some(prev)
            },
        }
    }
}

/// Build the sequence `init, next(init), next(next(init)), ...` that ends,
/// permanently, right after the value on which `next` first returns `None`.
/// The closure is retained, not called: no work happens until `next`.
pub fn try_unfold<T, F: Fn(&T) -> Option<T>>(init: T, next: F) -> (r: TryUnfold<T, F>)
    ensures
        r.wf(),
        r.seed() == init,
        r.current() == Some(init),
        r.produced() == Seq::<T>::empty(),
        r.func() == next,
{
    TryUnfold { seed: Ghost(init), produced: Ghost(Seq::empty()), state: Some(init), next }
}

/// Law: the `k`-th value a conditional sequence emits is the `k`-th point of
/// the partial orbit of `f` from the seed, for every step closure whose
/// outputs agree with the mathematical step function `f`.
pub proof fn lemma_try_unfold_produces_orbit<T, F: Fn(&T) -> Option<T>>(
    it: TryUnfold<T, F>,
    f: spec_fn(T) -> Option<T>,
    k: int,
)
    requires
        it.wf(),
        forall|x: T, y: Option<T>| #[trigger] call_ensures(it.func(), (&x,), y) ==> y == f(x),
        0 <= k < it.produced().len(),
    ensures
        try_iterate(f, it.seed(), k as nat) == Some(it.produced()[k]),
    decreases k,
{
    if k > 0 {
        lemma_try_unfold_produces_orbit(it, f, k - 1);
        assert(call_ensures(it.func(), (&it.produced()[k - 1],), Some(it.produced()[k])));
    }
}

/// Law: the held `Option` is exactly the next point of the partial orbit of
/// `f` from the seed. Together with `lemma_try_unfold_produces_orbit` this
/// says the sequence emits precisely the orbit, up to and including the last
/// value on which `f` still returned `Some`, and is exhausted if and only if
/// `f` first returned `None` there.
pub proof fn lemma_try_unfold_state_tracks_orbit<T, F: Fn(&T) -> Option<T>>(
    it: TryUnfold<T, F>,
    f: spec_fn(T) -> Option<T>,
)
    requires
        it.wf(),
        forall|x: T, y: Option<T>| #[trigger] call_ensures(it.func(), (&x,), y) ==> y == f(x),
    ensures
        it.current() == try_iterate(f, it.seed(), it.produced().len()),
{
    let n = it.produced().len();
    if n > 0 {
        lemma_try_unfold_produces_orbit(it, f, n - 1);
        assert(call_ensures(it.func(), (&it.produced().last(),), it.current()));
    }
}

} // verus!
