//! Ring buffer between a producer and a consumer.
//!
//! Capacity is a power of two, and the indices are 64-bit counters that run freely and wrap: their
//! difference is the fill, and their remainder is the slot.
//!
//! On overflow the **newest** value is dropped and counted. Anyone who does not want a backlog
//! should use [`Ring::take_latest`]; then the ring never fills up in the first place. Nothing ever
//! blocks.
use vstd::arithmetic::div_mod::*;
use vstd::arithmetic::power2::*;
use vstd::prelude::*;

verus! {

/// How many values a 64-bit counter takes before it wraps.
pub open spec fn wrap() -> int {
    0x1_0000_0000_0000_0000
}

/// Whether a capacity is a power of two.
pub open spec fn is_power_of_two(n: int) -> bool {
    exists|k: nat| #[trigger] pow2(k) == n
}

proof fn powers_of_two_divide_the_wrap(n: int)
    requires
        is_power_of_two(n),
        n < wrap(),
    ensures
        n > 0,
        wrap() % n == 0,
{
    let k = choose|k: nat| #[trigger] pow2(k) == n;
    lemma_pow2_pos(k);
    lemma2_to64();
    if k >= 64 {
        if k > 64 {
            lemma_pow2_strictly_increases(64, k);
        }
    }
    lemma_pow2_adds(k, (64 - k) as nat);
    let q = pow2((64 - k) as nat) as int;
    lemma_mod_multiples_basic(q, n);
    assert(q * n == n * q) by (nonlinear_arith);
}

proof fn slots_differ(tail: int, i: int, j: int, n: int)
    requires
        0 <= tail,
        0 <= i < n,
        0 <= j < n,
        (tail + i) % n == (tail + j) % n,
    ensures
        i == j,
{
    lemma_fundamental_div_mod(tail + i, n);
    lemma_fundamental_div_mod(tail + j, n);
    let a = (tail + i) / n;
    let b = (tail + j) / n;
    assert(n * a - n * b == i - j);
    assert(i == j) by (nonlinear_arith)
        requires
            n * a - n * b == i - j,
            0 <= i < n,
            0 <= j < n,
    ;
}

proof fn wrapped_slot(x: int, n: int)
    requires
        0 <= x,
        n > 0,
        wrap() % n == 0,
    ensures
        (x % wrap()) % n == x % n,
{
    let q = wrap() / n;
    lemma_fundamental_div_mod(wrap(), n);
    assert(q > 0) by (nonlinear_arith)
        requires
            wrap() == n * q,
            wrap() > 0,
            n > 0,
    ;
    lemma_mod_mod(x, n, q);
}

/// What can be done to a ring.
pub enum Op<T> {
    Push(T),
    Pop,
    Drain,
    TakeLatest,
}

/// How a ring stands: the values that wait to be collected, oldest first, and how many were dropped,
/// counted in 64 bits.
#[verifier::ext_equal]
pub struct Standing<T> {
    pub queue: Seq<T>,
    pub lost: u64,
}

/// How a ring of a given capacity stands after something was done to it.
pub open spec fn standing_after<T>(s: Standing<T>, op: Op<T>, capacity: int) -> Standing<T> {
    match op {
        Op::Push(value) => if s.queue.len() < capacity {
            Standing { queue: s.queue.push(value), ..s }
        } else {
            Standing { lost: ((s.lost + 1) % wrap()) as u64, ..s }
        },
        Op::Pop => if s.queue.len() > 0 {
            Standing { queue: s.queue.skip(1), ..s }
        } else {
            s
        },
        Op::Drain | Op::TakeLatest => Standing { queue: Seq::empty(), ..s },
    }
}

/// Fixed-capacity ring buffer for `Copy` payloads.
pub struct Ring<T: Copy, const N: usize> {
    slots: Vec<Option<T>>,
    /// Advanced by the producer.
    head: u64,
    /// Advanced by the consumer.
    tail: u64,
    /// How often the producer had to drop a value.
    dropped: u64,
}

impl<T: Copy, const N: usize> Ring<T, N> {
    spec fn fill(&self) -> int {
        (self.head - self.tail) % wrap()
    }

    spec fn slot(&self, j: int) -> int {
        (self.tail + j) % (N as int)
    }

    /// What holds of every ring.
    pub closed spec fn wf(&self) -> bool {
        &&& is_power_of_two(N as int)
        &&& N > 0
        &&& wrap() % (N as int) == 0
        &&& self.slots@.len() == N
        &&& self.fill() <= N
        &&& forall|j: int| 0 <= j < self.fill() ==> #[trigger] self.slots@[self.slot(j)] is Some
    }

    /// How many values were dropped, counted in 64 bits.
    pub closed spec fn lost(&self) -> u64 {
        self.dropped
    }

    /// How the ring stands.
    pub open spec fn standing(&self) -> Standing<T> {
        Standing { queue: self@, lost: self.lost() }
    }
}

impl<T: Copy, const N: usize> View for Ring<T, N> {
    type V = Seq<T>;

    /// The values that wait to be collected, oldest first.
    closed spec fn view(&self) -> Seq<T> {
        Seq::new(self.fill() as nat, |j: int| self.slots@[self.slot(j)]->Some_0)
    }
}

impl<T: Copy, const N: usize> Ring<T, N> {
    /// An empty ring.
    pub fn new() -> (r: Ring<T, N>)
        requires
            is_power_of_two(N as int),
        ensures
            r.wf(),
            r@ == Seq::<T>::empty(),
            r.lost() == 0,
    {
        let mut slots: Vec<Option<T>> = Vec::new();
        let mut i: usize = 0;
        while i < N
            invariant
                i <= N,
                slots@.len() == i,
            decreases N - i,
        {
            slots.push(None);
            i += 1;
        }
        proof {
            powers_of_two_divide_the_wrap(N as int);
        }
        let r = Ring { slots, head: 0, tail: 0, dropped: 0 };
        assert(r@ =~= Seq::<T>::empty());
        r
    }

    /// How many values wait to be collected.
    pub fn len(&self) -> (n: usize)
        requires
            self.wf(),
        ensures
            n == self@.len(),
            n <= N,
    {
        self.head.wrapping_sub(self.tail) as usize
    }

    /// Whether nothing waits to be collected.
    pub fn is_empty(&self) -> (b: bool)
        requires
            self.wf(),
        ensures
            b == (self@.len() == 0),
    {
        self.len() == 0
    }

    /// How many values the producer had to drop because nobody collected.
    pub fn dropped(&self) -> (n: u64)
        ensures
            n == self.lost(),
    {
        self.dropped
    }

    /// Producer side. Returns `false` if the ring was full and the value was dropped. Never waits.
    pub fn push(&mut self, value: T) -> (accepted: bool)
        requires
            old(self).wf(),
        ensures
            final(self).wf(),
            accepted == (old(self)@.len() < N),
            final(self).standing() =~= standing_after(
                old(self).standing(),
                Op::Push(value),
                N as int,
            ),
    {
        let fill: u64 = self.head.wrapping_sub(self.tail);
        if fill >= N as u64 {
            self.dropped = self.dropped.wrapping_add(1);
            proof {
                assert forall|j: int| 0 <= j < self.fill() implies #[trigger] self.slots@[self.slot(
                    j,
                )] is Some by {
                    assert(old(self).slots@[old(self).slot(j)] is Some);
                }
                assert(self@ =~= old(self)@);
            }
            return false;
        }
        let at: usize = (self.head % (N as u64)) as usize;
        proof {
            assert(self.head == (self.tail + fill) % wrap());
            wrapped_slot(self.tail + fill, N as int);
            assert(at == self.slot(fill as int));
        }
        self.slots.set(at, Some(value));
        self.head = self.head.wrapping_add(1);
        proof {
            assert(self.fill() == fill + 1);
            assert forall|j: int| 0 <= j < fill + 1 implies self.slot(j) == old(self).slot(j) && (
            j < fill ==> self.slot(j) != at) by {
                if j < fill && self.slot(j) == at {
                    slots_differ(self.tail as int, j, fill as int, N as int);
                }
            }
            assert forall|j: int| 0 <= j < self.fill() implies #[trigger] self.slots@[self.slot(
                j,
            )] is Some by {
                if j < fill {
                    assert(old(self).slots@[old(self).slot(j)] is Some);
                }
            }
            assert(self@ =~= old(self)@.push(value));
        }
        true
    }

    /// Consumer side, one value: the oldest.
    pub fn pop(&mut self) -> (r: Option<T>)
        requires
            old(self).wf(),
        ensures
            final(self).wf(),
            match r {
                Some(value) => old(self)@.len() > 0 && value == old(self)@[0],
                None => old(self)@.len() == 0,
            },
            final(self).standing() =~= standing_after(
                old(self).standing(),
                Op::Pop,
                N as int,
            ),
    {
        if self.tail == self.head {
            return None;
        }
        let at: usize = (self.tail % (N as u64)) as usize;
        let value: Option<T> = self.slots[at];
        self.tail = self.tail.wrapping_add(1);
        proof {
            assert(at == old(self).slot(0));
            assert(old(self).slots@[old(self).slot(0)] is Some);
            assert(self.fill() == old(self).fill() - 1);
            assert forall|j: int| 0 <= j implies #[trigger] self.slot(j) == old(self).slot(
                j + 1,
            ) by {
                wrapped_slot(old(self).tail + 1, N as int);
                lemma_add_mod_noop((old(self).tail + 1) % wrap(), j, N as int);
                lemma_add_mod_noop(old(self).tail + 1, j, N as int);
            }
            assert forall|j: int| 0 <= j < self.fill() implies #[trigger] self.slots@[self.slot(
                j,
            )] is Some by {
                assert(old(self).slots@[old(self).slot(j + 1)] is Some);
            }
            assert(self@ =~= old(self)@.skip(1));
        }
        value
    }

    /// Consumer side, everything at once: appends the values to `out`, oldest first, and returns
    /// how many there were.
    pub fn drain(&mut self, out: &mut Vec<T>) -> (n: usize)
        requires
            old(self).wf(),
        ensures
            final(self).wf(),
            final(out)@ == old(out)@ + old(self)@,
            n == old(self)@.len(),
            final(self).standing() =~= standing_after(
                old(self).standing(),
                Op::Drain,
                N as int,
            ),
    {
        let n: usize = self.len();
        let ghost all = self@;
        let mut done: usize = 0;
        while done < n
            invariant
                self.wf(),
                self.lost() == old(self).lost(),
                done <= n == all.len(),
                all == old(self)@,
                self@ == all.skip(done as int),
                out@ == old(out)@ + all.take(done as int),
            decreases n - done,
        {
            if let Some(value) = self.pop() {
                out.push(value);
                proof {
                    assert(all.skip(done as int).skip(1) =~= all.skip(done + 1));
                    assert(all.take(done + 1) =~= all.take(done as int).push(all[done as int]));
                }
            }
            done += 1;
        }
        assert(all.take(n as int) =~= all);
        n
    }

    /// Only the newest value; the rest is discarded. For renderers that care about the current
    /// value and nothing else.
    pub fn take_latest(&mut self) -> (r: Option<T>)
        requires
            old(self).wf(),
        ensures
            final(self).wf(),
            match r {
                Some(value) => old(self)@.len() > 0 && value == old(self)@.last(),
                None => old(self)@.len() == 0,
            },
            final(self).standing() =~= standing_after(
                old(self).standing(),
                Op::TakeLatest,
                N as int,
            ),
    {
        if self.head == self.tail {
            assert(self@ =~= Seq::<T>::empty());
            return None;
        }
        let at: usize = (self.head.wrapping_sub(1) % (N as u64)) as usize;
        let value: Option<T> = self.slots[at];
        proof {
            let last = self.fill() - 1;
            assert(self.head.wrapping_sub(1) == (self.tail + last) % wrap());
            wrapped_slot(self.tail + last, N as int);
            assert(self.slots@[self.slot(last)] is Some);
        }
        self.tail = self.head;
        assert(self@ =~= Seq::<T>::empty());
        value
    }
}

/// No more values wait in a ring than it has room for.
pub proof fn a_ring_is_never_overfull<T: Copy, const N: usize>(ring: Ring<T, N>)
    requires
        ring.wf(),
    ensures
        ring@.len() <= N,
{
}

/// What becomes of a queue when values are offered to it one after the other and nobody collects:
/// the queue, and how many of the values were dropped.
pub open spec fn offered<T>(queue: Seq<T>, values: Seq<T>, capacity: int) -> (Seq<T>, int)
    decreases values.len(),
{
    if values.len() == 0 {
        (queue, 0)
    } else {
        let (queue, lost) = offered(queue, values.drop_last(), capacity);
        if queue.len() < capacity {
            (queue.push(values.last()), lost)
        } else {
            (queue, lost + 1)
        }
    }
}

/// The accounting balances: of all values that are offered, the first ones that there is room for
/// are kept in order, and every other one is counted as dropped.
pub proof fn everything_is_kept_or_counted<T>(queue: Seq<T>, values: Seq<T>, capacity: int)
    requires
        queue.len() <= capacity,
    ensures
        ({
            let (after, lost) = offered(queue, values, capacity);
            let room = capacity - queue.len();
            let kept = if values.len() < room {
                values.len() as int
            } else {
                room
            };
            &&& after == queue + values.take(kept)
            &&& lost == values.len() - kept
        }),
    decreases values.len(),
{
    if values.len() == 0 {
        assert(queue + values.take(0) =~= queue);
    } else {
        let shorter = values.drop_last();
        everything_is_kept_or_counted(queue, shorter, capacity);
        let room = capacity - queue.len();
        if shorter.len() < room {
            assert(shorter.take(shorter.len() as int) =~= shorter);
            assert(values.take(values.len() as int) =~= shorter.push(values.last()));
            assert(queue + shorter.push(values.last()) =~= (queue + shorter).push(values.last()));
        } else {
            assert(values.take(room) =~= shorter.take(room));
        }
    }
}

/// The books of a ring: how it stands, the values it accepted, the values that have left it, both
/// oldest first, and how many it refused.
pub struct Books<T> {
    pub standing: Standing<T>,
    pub accepted: Seq<T>,
    pub left: Seq<T>,
    pub refused: nat,
}

/// The values that leave a queue when something is done to it, oldest first, be they handed out or
/// discarded.
pub open spec fn leaving<T>(queue: Seq<T>, op: Op<T>) -> Seq<T> {
    match op {
        Op::Push(_) => Seq::empty(),
        Op::Pop => if queue.len() > 0 {
            queue.take(1)
        } else {
            queue
        },
        Op::Drain | Op::TakeLatest => queue,
    }
}

/// The books of a new ring after a run of operations.
pub open spec fn books_after<T>(ops: Seq<Op<T>>, capacity: int) -> Books<T>
    decreases ops.len(),
{
    if ops.len() == 0 {
        Books {
            standing: Standing { queue: Seq::empty(), lost: 0 },
            accepted: Seq::empty(),
            left: Seq::empty(),
            refused: 0,
        }
    } else {
        let b = books_after(ops.drop_last(), capacity);
        let op = ops.last();
        let room = b.standing.queue.len() < capacity;
        Books {
            standing: standing_after(b.standing, op, capacity),
            accepted: match op {
                Op::Push(value) => if room {
                    b.accepted.push(value)
                } else {
                    b.accepted
                },
                _ => b.accepted,
            },
            left: b.left + leaving(b.standing.queue, op),
            refused: if op is Push && !room {
                b.refused + 1
            } else {
                b.refused
            },
        }
    }
}

/// How many values were offered in a run of operations.
pub open spec fn pushes<T>(ops: Seq<Op<T>>) -> nat
    decreases ops.len(),
{
    if ops.len() == 0 {
        0
    } else if ops.last() is Push {
        pushes(ops.drop_last()) + 1
    } else {
        pushes(ops.drop_last())
    }
}

/// The books balance after any run of operations on a new ring: what was accepted is what has left
/// and then what waits, in that order; never more waits than there is room for; and every value that
/// was offered was accepted or is counted as dropped, up to the wrap of the counter.
pub proof fn the_books_balance<T>(ops: Seq<Op<T>>, capacity: int)
    requires
        capacity > 0,
    ensures
        ({
            let b = books_after(ops, capacity);
            &&& b.accepted == b.left + b.standing.queue
            &&& b.standing.queue.len() == b.accepted.len() - b.left.len()
            &&& b.standing.queue.len() <= capacity
            &&& b.accepted.len() + b.refused == pushes(ops)
            &&& b.standing.lost == b.refused as int % wrap()
        }),
    decreases ops.len(),
{
    if ops.len() > 0 {
        the_books_balance(ops.drop_last(), capacity);
        let b = books_after(ops, capacity);
        assert(b.accepted =~= b.left + b.standing.queue);
    }
}

} // verus!
