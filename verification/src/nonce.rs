//! Replay protection: a sliding window over request nonces.
use vstd::prelude::*;

verus! {

/// Width of the window of nonces behind the highest nonce seen.
pub const WINDOW: u64 = 64;

/// The state of a `NonceValidator`: the highest nonce accepted so far, and a
/// bitmask in which bit `i` (from the least significant) records that nonce
/// `last_nonce - 1 - i` has been seen.
pub struct NonceWindow {
    pub last_nonce: u64,
    pub window: u64,
}

/// Whether bit `i` of `w` is set.
pub open spec fn bit_set(w: u64, i: u64) -> bool {
    w & (1u64 << i) != 0
}

impl NonceWindow {
    /// The state of a validator that has seen nothing.
    pub open spec fn initial() -> NonceWindow {
        NonceWindow { last_nonce: 0, window: 0 }
    }

    /// A nonce is accepted when it is not 0 and either higher than the last
    /// nonce, or at most 64 behind it and not yet seen.
    pub open spec fn accepts(self, n: u64) -> bool {
        n != 0 && (n > self.last_nonce || (self.last_nonce - n >= 1 && self.last_nonce - n
            <= WINDOW && !bit_set(self.window, (self.last_nonce - n - 1) as u64)))
    }

    /// The state after checking `n`. A higher nonce moves the window forward
    /// by the difference (forgetting everything when it moves 64 or more) and
    /// records the old last nonce; a nonce accepted behind the last one is
    /// recorded; a refused nonce changes nothing.
    pub open spec fn after(self, n: u64) -> NonceWindow {
        if !self.accepts(n) {
            self
        } else if n > self.last_nonce {
            let shift = (n - self.last_nonce) as u64;
            NonceWindow {
                last_nonce: n,
                window: if shift >= WINDOW {
                    0
                } else {
                    (self.window << shift) | (1u64 << (shift - 1) as u64)
                },
            }
        } else {
            NonceWindow {
                last_nonce: self.last_nonce,
                window: self.window | (1u64 << (self.last_nonce - n - 1) as u64),
            }
        }
    }
}

/// Nonce sliding window validator.
///
/// Accepts nonces that are either:
/// - higher than the last nonce (advances the window), or
/// - within the 64-nonce window behind the last nonce and not yet seen.
pub struct NonceValidator {
    last_nonce: u64,
    window: u64,
}

impl View for NonceValidator {
    type V = NonceWindow;

    closed spec fn view(&self) -> NonceWindow {
        NonceWindow { last_nonce: self.last_nonce, window: self.window }
    }
}

impl NonceValidator {
    pub fn new() -> (r: Self)
        ensures
            r@ == NonceWindow::initial(),
    {
        NonceValidator { last_nonce: 0, window: 0 }
    }

    /// The highest nonce accepted so far (0 before any).
    pub fn last_nonce(&self) -> (r: u64)
        ensures
            r == self@.last_nonce,
    {
        self.last_nonce
    }

    /// The bitmask of seen nonces behind the last nonce.
    pub fn window(&self) -> (r: u64)
        ensures
            r == self@.window,
    {
        self.window
    }

    /// Check if a nonce is valid and mark it as seen. Returns true if the
    /// nonce is accepted, false if it is 0, a duplicate or too old.
    pub fn check(&mut self, nonce: u64) -> (r: bool)
        ensures
            r == old(self)@.accepts(nonce),
            final(self)@ == old(self)@.after(nonce),
            nonce == 0 ==> !r,
            nonce > old(self)@.last_nonce ==> r && final(self)@.last_nonce == nonce,
            nonce == old(self)@.last_nonce ==> !r,
            nonce < old(self)@.last_nonce && old(self)@.last_nonce - nonce > WINDOW ==> !r,
            nonce <= old(self)@.last_nonce ==> final(self)@.last_nonce == old(self)@.last_nonce,
            !r ==> final(self)@ == old(self)@,
            r ==> !final(self)@.accepts(nonce),
    {
        proof {
            lemma_checked_nonce_refused(self@, nonce);
        }
        if nonce == 0 {
            return false;
        }
        if nonce > self.last_nonce {
            let shift = nonce - self.last_nonce;
            if shift >= 64 {
                self.window = 0;
            } else {
                self.window = self.window << shift;
                self.window = self.window | (1u64 << (shift - 1));
            }
            self.last_nonce = nonce;
            true
        } else {
            let diff = self.last_nonce - nonce;
            if diff == 0 {
                false
            } else if diff > 64 {
                false
            } else {
                let bit = diff - 1;
                if self.window & (1u64 << bit) != 0 {
                    false
                } else {
                    self.window = self.window | (1u64 << bit);
                    true
                }
            }
        }
    }
}

/// Once checked, a nonce is refused from then on.
pub proof fn lemma_checked_nonce_refused(v: NonceWindow, n: u64)
    ensures
        !v.after(n).accepts(n),
{
    if v.accepts(n) && n <= v.last_nonce {
        let b = (v.last_nonce - n - 1) as u64;
        let w = v.window;
        assert(b < 64);
        assert(bit_set(w | (1u64 << b), b)) by (bit_vector)
            requires
                b < 64,
        ;
    }
}

/// A refused nonce stays refused after any check, except one case: the last
/// nonce becomes acceptable again when the next accepted nonce is exactly 64
/// above it, because that jump clears the window while the old last nonce
/// is still inside it.
pub proof fn lemma_refused_stays_refused(v: NonceWindow, n: u64, m: u64)
    requires
        !v.accepts(m),
        !(m == v.last_nonce && n > v.last_nonce && n - v.last_nonce == WINDOW),
    ensures
        !v.after(n).accepts(m),
{
    let w = v.window;
    let last = v.last_nonce;
    if v.accepts(n) && m != 0 {
        if n > last {
            let s = (n - last) as u64;
            if s < WINDOW {
                let w2 = (w << s) | (1u64 << (s - 1) as u64);
                if m == last {
                    assert(bit_set(w2, (s - 1) as u64)) by (bit_vector)
                        requires
                            w2 == (w << s) | (1u64 << (s - 1) as u64),
                            1 <= s < 64,
                    ;
                } else if last - m <= WINDOW && last - m + s <= WINDOW {
                    let d = (last - m) as u64;
                    assert(bit_set(w, (d - 1) as u64));
                    assert(bit_set(w2, (d + s - 1) as u64)) by (bit_vector)
                        requires
                            w2 == (w << s) | (1u64 << (s - 1) as u64),
                            1 <= s < 64,
                            1 <= d <= 64,
                            d + s <= 64,
                            bit_set(w, (d - 1) as u64),
                    ;
                    assert((n - m - 1) as u64 == (d + s - 1) as u64);
                }
            }
        } else {
            let b = (last - n - 1) as u64;
            if m < last && last - m <= WINDOW {
                let c = (last - m - 1) as u64;
                assert(bit_set(w, c));
                assert(bit_set(w | (1u64 << b), c)) by (bit_vector)
                    requires
                        b < 64,
                        c < 64,
                        bit_set(w, c),
                ;
            }
        }
    }
}

/// The last nonce never decreases, and any nonce higher than it is accepted.
pub proof fn lemma_last_nonce_monotone(v: NonceWindow, n: u64)
    ensures
        v.after(n).last_nonce >= v.last_nonce,
        n > v.last_nonce ==> v.accepts(n) && v.after(n).last_nonce == n,
{
}

/// The state after checking the nonces of `ns` in order, starting from `v`.
pub open spec fn run(v: NonceWindow, ns: Seq<u64>) -> NonceWindow
    decreases ns.len(),
{
    if ns.len() == 0 {
        v
    } else {
        run(v, ns.drop_last()).after(ns.last())
    }
}

/// The state reached before the `k`-th check of `ns`.
pub open spec fn state_before(v: NonceWindow, ns: Seq<u64>, k: int) -> NonceWindow {
    run(v, ns.take(k))
}

proof fn lemma_state_step(v: NonceWindow, ns: Seq<u64>, k: int)
    requires
        0 <= k < ns.len(),
    ensures
        state_before(v, ns, k + 1) == state_before(v, ns, k).after(ns[k]),
{
    assert(ns.take(k + 1).drop_last() =~= ns.take(k));
}

proof fn lemma_stays_refused_from(v: NonceWindow, ns: Seq<u64>, i: int, k: int, m: u64)
    requires
        0 <= i < k <= ns.len(),
        !state_before(v, ns, k).accepts(m),
        forall|t: int|
            k <= t < ns.len() ==> !(#[trigger] state_before(v, ns, t).last_nonce == m && ns[t] > m
                && ns[t] - m == WINDOW),
    ensures
        !state_before(v, ns, ns.len() as int).accepts(m),
    decreases ns.len() - k,
{
    if k < ns.len() {
        lemma_state_step(v, ns, k);
        lemma_refused_stays_refused(state_before(v, ns, k), ns[k], m);
        lemma_stays_refused_from(v, ns, i, k + 1, m);
    }
}

/// Replay protection: a nonce accepted at some check is refused at every
/// later check, unless in between the window jumped by exactly 64 from that
/// nonce while it was the last nonce (see `lemma_refused_stays_refused`).
pub proof fn lemma_no_replay(v: NonceWindow, ns: Seq<u64>, i: int, j: int)
    requires
        0 <= i < j < ns.len(),
        ns[i] == ns[j],
        forall|t: int|
            i < t < j ==> !(#[trigger] state_before(v, ns, t).last_nonce == ns[i] && ns[t] > ns[i]
                && ns[t] - ns[i] == WINDOW),
    ensures
        !state_before(v, ns, j).accepts(ns[j]),
{
    let m = ns[i];
    let pre = ns.take(j);
    assert forall|t: int| 0 <= t <= j implies #[trigger] state_before(v, pre, t) == state_before(v, ns, t) by {
        assert(pre.take(t) =~= ns.take(t));
    }
    lemma_state_step(v, ns, i);
    lemma_checked_nonce_refused(state_before(v, ns, i), m);
    assert(pre.take(j) =~= pre);
    assert forall|t: int|
        i + 1 <= t < pre.len() implies !(#[trigger] state_before(v, pre, t).last_nonce == m && pre[t] > m
        && pre[t] - m == WINDOW) by {
        assert(pre[t] == ns[t]);
    }
    lemma_stays_refused_from(v, pre, i, i + 1, m);
}

/// What the window stands for: the highest nonce accepted so far, and the
/// set of nonces recorded as seen. A nonce is recorded when it is accepted
/// behind the last nonce, and the old last nonce when a higher nonce is
/// accepted, except when that nonce is exactly 64 above it.
pub struct NonceHistory {
    pub last: u64,
    pub seen: Set<u64>,
}

impl NonceHistory {
    /// Nothing accepted, nothing seen.
    pub open spec fn initial() -> NonceHistory {
        NonceHistory { last: 0, seen: Set::empty() }
    }

    /// A nonce is accepted when it is not 0 and either higher than the last
    /// nonce, or below it by at most 64 and not seen.
    pub open spec fn accepts(self, n: u64) -> bool {
        n != 0 && (n > self.last || (n < self.last && self.last - n <= WINDOW && !self.seen.contains(
            n,
        )))
    }

    /// The history after checking `n`.
    pub open spec fn after(self, n: u64) -> NonceHistory {
        if !self.accepts(n) {
            self
        } else if n > self.last {
            NonceHistory {
                last: n,
                seen: if n - self.last == WINDOW {
                    self.seen
                } else {
                    self.seen.insert(self.last)
                },
            }
        } else {
            NonceHistory { last: self.last, seen: self.seen.insert(n) }
        }
    }
}

/// The history after checking the nonces of `ns` in order, from nothing.
pub open spec fn history(ns: Seq<u64>) -> NonceHistory
    decreases ns.len(),
{
    if ns.len() == 0 {
        NonceHistory::initial()
    } else {
        history(ns.drop_last()).after(ns.last())
    }
}

/// The window holds exactly the history: the same last nonce, and bit `i`
/// set exactly when `last - 1 - i` is seen, for each bit below 64 that
/// stands for a nonce; nothing seen is at or above the last nonce.
spec fn window_holds(w: NonceWindow, h: NonceHistory) -> bool {
    &&& w.last_nonce == h.last
    &&& forall|x: u64| h.seen.contains(x) ==> x < h.last
    &&& forall|i: u64|
        i < WINDOW && i < w.last_nonce ==> (#[trigger] bit_set(w.window, i) <==> h.seen.contains(
            (w.last_nonce - 1 - i) as u64,
        ))
}

proof fn lemma_shift_bits(w: u64, s: u64, i: u64)
    requires
        1 <= s < 64,
        i < 64,
    ensures
        bit_set((w << s) | (1u64 << (s - 1) as u64), i) == (i == s - 1 || (i >= s && bit_set(
            w,
            (i - s) as u64,
        ))),
{
    assert(bit_set((w << s) | (1u64 << (s - 1) as u64), i) == (i == s - 1 || (i >= s && bit_set(
        w,
        (i - s) as u64,
    )))) by (bit_vector)
        requires
            1 <= s < 64,
            i < 64,
    ;
}

proof fn lemma_set_bit(w: u64, b: u64, i: u64)
    requires
        b < 64,
        i < 64,
    ensures
        bit_set(w | (1u64 << b), i) == (i == b || bit_set(w, i)),
{
    assert(bit_set(w | (1u64 << b), i) == (i == b || bit_set(w, i))) by (bit_vector)
        requires
            b < 64,
            i < 64,
    ;
}

proof fn lemma_zero_bits(i: u64)
    requires
        i < 64,
    ensures
        !bit_set(0u64, i),
{
    assert(!bit_set(0u64, i)) by (bit_vector)
        requires
            i < 64,
    ;
}

proof fn lemma_window_step(w: NonceWindow, h: NonceHistory, n: u64)
    requires
        window_holds(w, h),
    ensures
        w.accepts(n) == h.accepts(n),
        window_holds(w.after(n), h.after(n)),
{
    let last = w.last_nonce;
    if n != 0 && n < last && last - n <= WINDOW {
        let i = (last - n - 1) as u64;
        assert((last - 1 - i) as u64 == n);
        assert(bit_set(w.window, i) <==> h.seen.contains(n));
    }
    if !w.accepts(n) {
        return;
    }
    let w2 = w.after(n);
    let h2 = h.after(n);
    if n > last {
        let s = (n - last) as u64;
        assert forall|x: u64| h2.seen.contains(x) implies x < h2.last by {}
        if s >= WINDOW {
            assert forall|i: u64| i < WINDOW && i < w2.last_nonce implies (#[trigger] bit_set(
                w2.window,
                i,
            ) <==> h2.seen.contains((w2.last_nonce - 1 - i) as u64)) by {
                lemma_zero_bits(i);
                if i + 1 == s {
                    assert((n - 1 - i) as u64 == last);
                }
            }
        } else {
            assert forall|i: u64| i < WINDOW && i < w2.last_nonce implies (#[trigger] bit_set(
                w2.window,
                i,
            ) <==> h2.seen.contains((w2.last_nonce - 1 - i) as u64)) by {
                lemma_shift_bits(w.window, s, i);
                if i >= s {
                    let j = (i - s) as u64;
                    assert((n - 1 - i) as u64 == (last - 1 - j) as u64);
                    assert(bit_set(w.window, j) <==> h.seen.contains((last - 1 - j) as u64));
                } else if i + 1 == s {
                    assert((n - 1 - i) as u64 == last);
                }
            }
        }
    } else {
        let b = (last - n - 1) as u64;
        assert forall|i: u64| i < WINDOW && i < w2.last_nonce implies (#[trigger] bit_set(
            w2.window,
            i,
        ) <==> h2.seen.contains((w2.last_nonce - 1 - i) as u64)) by {
            lemma_set_bit(w.window, b, i);
            if i == b {
                assert((last - 1 - i) as u64 == n);
            }
        }
    }
}

proof fn lemma_window_run(ns: Seq<u64>)
    ensures
        window_holds(run(NonceWindow::initial(), ns), history(ns)),
    decreases ns.len(),
{
    if ns.len() > 0 {
        lemma_window_run(ns.drop_last());
        lemma_window_step(run(NonceWindow::initial(), ns.drop_last()), history(ns.drop_last()), ns.last());
    }
}

/// Over any sequence of checks from a new validator, the next nonce is
/// accepted exactly when the history accepts it: it is not 0, and either
/// higher than the highest nonce accepted so far, or below it by at most 64
/// and not seen. Every check returns what the history says.
pub proof fn lemma_window_is_history(ns: Seq<u64>, n: u64)
    ensures
        run(NonceWindow::initial(), ns).accepts(n) == history(ns).accepts(n),
        run(NonceWindow::initial(), ns).last_nonce == history(ns).last,
{
    lemma_window_run(ns);
    lemma_window_step(run(NonceWindow::initial(), ns), history(ns), n);
}

/// The nonces accepted when checking `ns` in order from a new validator.
pub open spec fn accepted_nonces(ns: Seq<u64>) -> Set<u64>
    decreases ns.len(),
{
    if ns.len() == 0 {
        Set::empty()
    } else if history(ns.drop_last()).accepts(ns.last()) {
        accepted_nonces(ns.drop_last()).insert(ns.last())
    } else {
        accepted_nonces(ns.drop_last())
    }
}

/// Whether, over the checks of `ns`, the latest acceptance of `x` made it
/// the highest nonce and the next nonce accepted above it was exactly
/// `x + 64`: the one case in which an accepted nonce is not remembered.
pub open spec fn jumped_over(ns: Seq<u64>, x: u64) -> bool
    decreases ns.len(),
{
    if ns.len() == 0 {
        false
    } else {
        let h = history(ns.drop_last());
        let n = ns.last();
        if !h.accepts(n) {
            jumped_over(ns.drop_last(), x)
        } else if x == n {
            false
        } else if n > h.last && x == h.last {
            n - h.last == WINDOW
        } else {
            jumped_over(ns.drop_last(), x)
        }
    }
}

proof fn lemma_history_accepted(ns: Seq<u64>)
    ensures
        history(ns).last == 0 || accepted_nonces(ns).contains(history(ns).last),
        forall|x: u64| #[trigger] accepted_nonces(ns).contains(x) ==> x <= history(ns).last,
        forall|x: u64| #[trigger] history(ns).seen.contains(x) ==> x < history(ns).last,
        forall|x: u64|
            x != 0 ==> (#[trigger] history(ns).seen.contains(x) <==> (accepted_nonces(ns).contains(x)
                && x < history(ns).last && !jumped_over(ns, x))),
        !jumped_over(ns, history(ns).last),
    decreases ns.len(),
{
    if ns.len() > 0 {
        let prev = ns.drop_last();
        let n = ns.last();
        lemma_history_accepted(prev);
        let h = history(prev);
        let a = accepted_nonces(prev);
        assert(history(ns) == h.after(n));
        assert forall|x: u64| #[trigger] accepted_nonces(ns).contains(x) implies x <= history(ns).last by {
            if x != n {
                assert(a.contains(x));
            }
        }
        assert forall|x: u64| #[trigger] history(ns).seen.contains(x) implies x < history(ns).last by {
            if h.seen.contains(x) {
            }
        }
        assert forall|x: u64| x != 0 implies (#[trigger] history(ns).seen.contains(x) <==> (
        accepted_nonces(ns).contains(x) && x < history(ns).last && !jumped_over(ns, x))) by {
            assert(h.seen.contains(x) <==> (a.contains(x) && x < h.last && !jumped_over(prev, x)));
            if a.contains(x) {
                assert(x <= h.last);
            }
            if h.accepts(n) && n > h.last && x == h.last {
                assert(a.contains(x));
            }
        }
    }
}

/// The window in terms of the checks alone: after checking `ns` in order
/// from a new validator, with `last` the highest accepted nonce (0 before
/// any), a nonce `n` is accepted exactly when it is not 0 and either above
/// `last`, or below it by at most 64 and not seen, where seen means accepted
/// before, except when its latest acceptance made it the highest and the next
/// nonce accepted above it was exactly 64 higher.
pub proof fn lemma_window_law(ns: Seq<u64>, n: u64)
    ensures
        ({
            let last = run(NonceWindow::initial(), ns).last_nonce;
            let seen = accepted_nonces(ns).contains(n) && !jumped_over(ns, n);
            &&& last == 0 || accepted_nonces(ns).contains(last)
            &&& forall|x: u64| #[trigger] accepted_nonces(ns).contains(x) ==> x <= last
            &&& run(NonceWindow::initial(), ns).accepts(n) == (n != 0 && (n > last || (n < last && last
                - n <= WINDOW && !seen)))
        }),
{
    lemma_window_is_history(ns, n);
    lemma_history_accepted(ns);
}

/// The stricter rule of the plain protocol variant: a nonce is accepted only
/// when it is higher than the last accepted one, which it then becomes.
pub fn check_strictly_increasing(last_nonce: &mut u64, nonce: u64) -> (r: bool)
    ensures
        r == (nonce > *old(last_nonce)),
        *final(last_nonce) == if r { nonce } else { *old(last_nonce) },
        !(nonce > *final(last_nonce)),
{
    if nonce <= *last_nonce {
        false
    } else {
        *last_nonce = nonce;
        true
    }
}

} // verus!
