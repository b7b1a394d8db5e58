//! Sounds that are due at a given host time.

use vstd::prelude::*;

verus! {

/// Nanoseconds per second.
pub const NS_PER_SECOND: u64 = 1_000_000_000;

/// How long `frames` frames last at `sample_rate`, in whole nanoseconds; zero for a rate of zero.
pub open spec fn duration_of(frames: nat, sample_rate: nat) -> nat {
    if sample_rate == 0 {
        0
    } else {
        frames * NS_PER_SECOND as nat / sample_rate
    }
}

/// How many whole frames fit into `ns` nanoseconds at `sample_rate`.
pub open spec fn frames_in(ns: nat, sample_rate: nat) -> nat {
    ns * sample_rate / NS_PER_SECOND as nat
}

/// `target` less `start`, but not below zero.
pub open spec fn elapsed(target: u64, start: u64) -> nat {
    if target >= start {
        (target - start) as nat
    } else {
        0
    }
}

proof fn lemma_truncation(x: u128)
    ensures
        x as u64 as int == x as int % 0x1_0000_0000_0000_0000,
        x as usize as int == x as int % (usize::MAX + 1),
{
    assert(x as u64 as u128 == x % 0x1_0000_0000_0000_0000u128) by (bit_vector);
    if usize::MAX == 0xffff_ffff {
        assert(x as u32 as u128 == x % 0x1_0000_0000u128) by (bit_vector);
        assert(usize::BITS == 32);
        assert(usize::BITS == 32 ==> x as usize as u128 == x % 0x1_0000_0000u128) by (bit_vector);
    } else {
        assert(usize::BITS == 64);
        assert(usize::BITS == 64 ==> x as usize as u128 == x % 0x1_0000_0000_0000_0000u128)
            by (bit_vector);
    }
}

/// How long `frames` frames last at `sample_rate`, in nanoseconds (modulo `2^64`).
pub fn buffer_duration_ns(frames: usize, sample_rate: u32) -> (ns: u64)
    ensures
        ns as int == duration_of(frames as nat, sample_rate as nat) as int
            % 0x1_0000_0000_0000_0000,
{
    if sample_rate == 0 {
        return 0;
    }
    assert(frames as u128 * NS_PER_SECOND as u128 <= u128::MAX) by (nonlinear_arith)
        requires
            frames <= 0xffff_ffff_ffff_ffff,
            NS_PER_SECOND == 1_000_000_000,
    ;
    let exact: u128 = frames as u128 * NS_PER_SECOND as u128 / sample_rate as u128;
    proof {
        lemma_truncation(exact);
    }
    exact as u64
}

/// The frame of a buffer that starts at `buffer_start_ns` in which `target_ns` falls: the first
/// one for a target that has passed (modulo the range of `usize`).
pub fn offset_within_buffer(target_ns: u64, buffer_start_ns: u64, sample_rate: u32) -> (offset:
    usize)
    ensures
        offset as int == frames_in(elapsed(target_ns, buffer_start_ns), sample_rate as nat) as int
            % (usize::MAX + 1),
{
    if sample_rate == 0 {
        assert(frames_in(elapsed(target_ns, buffer_start_ns), 0) == 0) by (nonlinear_arith);
        return 0;
    }
    let ns: u64 = if target_ns >= buffer_start_ns {
        target_ns - buffer_start_ns
    } else {
        0
    };
    assert(ns as u128 * sample_rate as u128 <= u128::MAX) by (nonlinear_arith)
        requires
            ns <= 0xffff_ffff_ffff_ffff,
            sample_rate <= 0xffff_ffff,
    ;
    let exact: u128 = ns as u128 * sample_rate as u128 / NS_PER_SECOND as u128;
    proof {
        lemma_truncation(exact);
    }
    exact as usize
}

/// How many of the first `n` entries are due at `t` or before.
pub open spec fn due_count<T>(entries: Seq<(u64, T)>, t: u64, n: nat) -> nat
    decreases n,
{
    if n == 0 {
        0
    } else {
        due_count(entries, t, (n - 1) as nat) + if entries[n - 1].0 <= t {
            1nat
        } else {
            0
        }
    }
}

/// Whether no entry is due before one that stands ahead of it.
pub open spec fn in_order<T>(entries: Seq<(u64, T)>) -> bool {
    forall|i: int, j: int| 0 <= i <= j < entries.len() ==> entries[i].0 <= entries[j].0
}

/// The entries among the first `n` that are not marked.
pub open spec fn unmarked<T>(entries: Seq<(u64, T)>, marks: Seq<bool>, n: nat) -> Seq<(u64, T)>
    decreases n,
{
    if n == 0 {
        Seq::empty()
    } else {
        let before = unmarked(entries, marks, (n - 1) as nat);
        if marks[n - 1] {
            before
        } else {
            before.push(entries[n - 1])
        }
    }
}

/// The items of the marked entries among the first `n`.
pub open spec fn marked<T>(entries: Seq<(u64, T)>, marks: Seq<bool>, n: nat) -> Seq<T>
    decreases n,
{
    if n == 0 {
        Seq::empty()
    } else {
        let before = marked(entries, marks, (n - 1) as nat);
        if marks[n - 1] {
            before.push(entries[n - 1].1)
        } else {
            before
        }
    }
}

/// Whether `marks` are the answers of `matches` on the items of `entries`.
pub open spec fn answers_of<T, F: Fn(&T) -> bool>(
    matches: F,
    entries: Seq<(u64, T)>,
    marks: Seq<bool>,
) -> bool {
    &&& marks.len() == entries.len()
    &&& forall|i: int|
        0 <= i < entries.len() ==> #[trigger] matches.ensures((&entries[i].1,), marks[i])
}

/// A queue of items by the time at which they are due, of a fixed size.
#[derive(Debug)]
pub struct ScheduleQueue<T> {
    /// The items with their times, in the order in which they are due.
    pub entries: Vec<(u64, T)>,
    /// The greatest number of items.
    pub capacity: usize,
}

impl<T> ScheduleQueue<T> {
    /// Whether the entries stand in order.
    pub open spec fn wf(self) -> bool {
        in_order(self.entries@) && self.entries@.len() <= self.capacity
    }

    /// An empty queue with room for `capacity` items.
    pub fn with_capacity(capacity: usize) -> (queue: ScheduleQueue<T>)
        ensures
            queue.wf(),
            queue.entries@ == Seq::<(u64, T)>::empty(),
            queue.capacity == capacity,
    {
        ScheduleQueue { entries: Vec::with_capacity(capacity), capacity }
    }

    /// Adds an item behind all that are due at the same time or before. Refused if the queue is
    /// full.
    pub fn try_insert(&mut self, host_time_ns: u64, item: T) -> (accepted: bool)
        requires
            old(self).wf(),
        ensures
            final(self).wf(),
            final(self).capacity == old(self).capacity,
            accepted == (old(self).entries@.len() < old(self).capacity),
            accepted ==> final(self).entries@ == old(self).entries@.insert(
                due_count(old(self).entries@, host_time_ns, old(self).entries@.len()) as int,
                (host_time_ns, item),
            ),
            !accepted ==> final(self).entries@ == old(self).entries@,
    {
        if self.entries.len() >= self.capacity {
            return false;
        }
        let mut i: usize = 0;
        while i < self.entries.len() && self.entries[i].0 <= host_time_ns
            invariant
                i <= self.entries@.len(),
                i == due_count(self.entries@, host_time_ns, i as nat),
                forall|j: int| 0 <= j < i ==> self.entries@[j].0 <= host_time_ns,
            decreases self.entries@.len() - i,
        {
            i = i + 1;
        }
        proof {
            lemma_due_prefix(self.entries@, host_time_ns, i as nat, self.entries@.len());
        }
        self.entries.insert(i, (host_time_ns, item));
        true
    }

    /// The item that is due first.
    pub fn front(&self) -> (first: Option<&(u64, T)>)
        ensures
            first == if self.entries@.len() > 0 {
                Some(&self.entries@[0])
            } else {
                None
            },
    {
        if self.entries.len() > 0 {
            Some(&self.entries[0])
        } else {
            None
        }
    }

    /// Takes out the item that is due first.
    pub fn pop_front(&mut self) -> (first: Option<(u64, T)>)
        requires
            old(self).wf(),
        ensures
            final(self).wf(),
            final(self).capacity == old(self).capacity,
            old(self).entries@.len() == 0 ==> first is None && final(self).entries@ == old(
                self,
            ).entries@,
            old(self).entries@.len() > 0 ==> first == Some(old(self).entries@[0])
                && final(self).entries@ == old(self).entries@.skip(1),
    {
        if self.entries.len() > 0 {
            let first: (u64, T) = self.entries.remove(0);
            assert(self.entries@ =~= old(self).entries@.skip(1));
            Some(first)
        } else {
            None
        }
    }

    /// Takes out every item that matches and appends it to `removed`. What stays and what leaves
    /// keeps its order.
    pub fn remove_where<F: Fn(&T) -> bool>(&mut self, matches: F, removed: &mut Vec<T>)
        requires
            old(self).wf(),
            forall|i: int|
                0 <= i < old(self).entries@.len() ==> #[trigger] matches.requires(
                    (&old(self).entries@[i].1,),
                ),
        ensures
            final(self).wf(),
            final(self).capacity == old(self).capacity,
            exists|marks: Seq<bool>| #[trigger]
                answers_of(matches, old(self).entries@, marks) && final(self).entries@ == unmarked(
                    old(self).entries@,
                    marks,
                    marks.len(),
                ) && final(removed)@ == old(removed)@ + marked(
                    old(self).entries@,
                    marks,
                    marks.len(),
                ),
    {
        let ghost all = self.entries@;
        let ghost mut marks: Seq<bool> = Seq::empty();
        let mut i: usize = 0;
        assert(self.entries@ =~= all.skip(0));
        assert(removed@ =~= old(removed)@ + marked(all, marks, 0));
        assert(unmarked(all, marks, 0) + all.skip(0) =~= all);
        while i < self.entries.len()
            invariant
                all == old(self).entries@,
                self.capacity == old(self).capacity,
                all.len() <= self.capacity,
                in_order(all),
                forall|k: int|
                    0 <= k < all.len() ==> #[trigger] matches.requires((&all[k].1,)),
                marks.len() <= all.len(),
                forall|k: int|
                    0 <= k < marks.len() ==> #[trigger] matches.ensures((&all[k].1,), marks[k]),
                i == unmarked(all, marks, marks.len()).len(),
                self.entries@ == unmarked(all, marks, marks.len()) + all.skip(marks.len() as int),
                removed@ == old(removed)@ + marked(all, marks, marks.len()),
            decreases all.len() - marks.len(),
        {
            let ghost k = marks.len();
            assert(self.entries@[i as int] == all[k as int]);
            let hit: bool = matches(&self.entries[i].1);
            let ghost next = marks.push(hit);
            proof {
                lemma_marks_prefix(all, marks, next, k);
            }
            if hit {
                let (_, item) = self.entries.remove(i);
                removed.push(item);
            } else {
                i = i + 1;
            }
            proof {
                marks = next;
                assert(removed@ =~= old(removed)@ + marked(all, marks, marks.len()));
                assert(self.entries@ =~= unmarked(all, marks, marks.len()) + all.skip(
                    marks.len() as int,
                ));
            }
        }
        assert(marks.len() == all.len());
        assert(self.entries@ =~= unmarked(all, marks, marks.len()));
        proof {
            lemma_unmarked_in_order(all, marks, marks.len());
        }
        assert(answers_of(matches, all, marks));
    }

    /// The number of items.
    pub fn len(&self) -> (n: usize)
        ensures
            n == self.entries@.len(),
    {
        self.entries.len()
    }
}

proof fn lemma_due_prefix<T>(entries: Seq<(u64, T)>, t: u64, i: nat, n: nat)
    requires
        in_order(entries),
        i <= n <= entries.len(),
        i == due_count(entries, t, i),
        forall|j: int| 0 <= j < i ==> entries[j].0 <= t,
        i < entries.len() ==> entries[i as int].0 > t,
    ensures
        due_count(entries, t, n) == i,
    decreases n,
{
    if i < n {
        lemma_due_prefix(entries, t, i, (n - 1) as nat);
        assert(entries[i as int].0 <= entries[n - 1].0);
    }
}

proof fn lemma_marks_prefix<T>(
    entries: Seq<(u64, T)>,
    a: Seq<bool>,
    b: Seq<bool>,
    n: nat,
)
    requires
        n <= a.len(),
        n <= b.len(),
        forall|i: int| 0 <= i < n ==> a[i] == b[i],
    ensures
        unmarked(entries, a, n) == unmarked(entries, b, n),
        marked(entries, a, n) == marked(entries, b, n),
    decreases n,
{
    if n > 0 {
        lemma_marks_prefix(entries, a, b, (n - 1) as nat);
    }
}

proof fn lemma_unmarked_in_order<T>(entries: Seq<(u64, T)>, marks: Seq<bool>, n: nat)
    requires
        in_order(entries),
        n <= entries.len(),
        n <= marks.len(),
    ensures
        in_order(unmarked(entries, marks, n)),
        unmarked(entries, marks, n).len() <= n,
        forall|i: int|
            0 <= i < unmarked(entries, marks, n).len() && n > 0 ==> unmarked(
                entries,
                marks,
                n,
            )[i].0 <= entries[n - 1].0,
    decreases n,
{
    if n > 0 {
        lemma_unmarked_in_order(entries, marks, (n - 1) as nat);
        if n > 1 {
            assert(entries[n - 2].0 <= entries[n - 1].0);
        }
    }
}

/// The frame in which a target falls is the one whose period holds it: the frame does not start
/// after the target, and the next one does.
pub proof fn law_offset_is_the_frame_of_the_target(ns: nat, sample_rate: nat)
    ensures
        frames_in(ns, sample_rate) * NS_PER_SECOND <= ns * sample_rate,
        ns * sample_rate < (frames_in(ns, sample_rate) + 1) * NS_PER_SECOND,
{
    let x = ns * sample_rate;
    let d = NS_PER_SECOND as nat;
    assert(x / d * d <= x < (x / d + 1) * d) by (nonlinear_arith)
        requires
            d == 1_000_000_000,
    ;
}

/// A later target does not fall in an earlier frame.
pub proof fn law_offsets_are_monotonic(a: nat, b: nat, sample_rate: nat)
    requires
        a <= b,
    ensures
        frames_in(a, sample_rate) <= frames_in(b, sample_rate),
{
    assert(a * sample_rate <= b * sample_rate) by (nonlinear_arith)
        requires
            a <= b,
    ;
    let d = NS_PER_SECOND as nat;
    let x = a * sample_rate;
    let y = b * sample_rate;
    assert(x / d <= y / d) by (nonlinear_arith)
        requires
            x <= y,
            d == 1_000_000_000,
    ;
}

/// A target that lies within a buffer falls in one of its frames.
pub proof fn law_due_target_falls_in_the_buffer(ns: nat, frames: nat, sample_rate: nat)
    requires
        ns < duration_of(frames, sample_rate),
    ensures
        frames_in(ns, sample_rate) < frames,
{
    let d = NS_PER_SECOND as nat;
    let r = sample_rate;
    assert(r > 0);
    assert(frames * d / r * r <= frames * d) by (nonlinear_arith)
        requires
            r > 0,
    ;
    assert(ns * r < frames * d) by (nonlinear_arith)
        requires
            ns < frames * d / r,
            frames * d / r * r <= frames * d,
            r > 0,
    ;
    let x = ns * r;
    assert(x / d < frames) by (nonlinear_arith)
        requires
            x < frames * d,
            d == 1_000_000_000,
    ;
}

/// What is due at the same time is served in the order in which it was added: an item goes behind
/// everything that is due no later than it, and before everything that is due later.
pub proof fn law_equal_times_are_served_in_order<T>(entries: Seq<(u64, T)>, t: u64)
    requires
        in_order(entries),
    ensures
        ({
            let at = due_count(entries, t, entries.len());
            &&& at <= entries.len()
            &&& forall|i: int| 0 <= i < at ==> (#[trigger] entries[i]).0 <= t
            &&& forall|i: int| at <= i < entries.len() ==> (#[trigger] entries[i]).0 > t
        }),
{
    lemma_due_counts(entries, t, entries.len());
}

proof fn lemma_due_counts<T>(entries: Seq<(u64, T)>, t: u64, n: nat)
    requires
        in_order(entries),
        n <= entries.len(),
    ensures
        due_count(entries, t, n) <= n,
        forall|i: int| 0 <= i < due_count(entries, t, n) ==> (#[trigger] entries[i]).0 <= t,
        forall|i: int| due_count(entries, t, n) <= i < n ==> (#[trigger] entries[i]).0 > t,
    decreases n,
{
    if n > 0 {
        lemma_due_counts(entries, t, (n - 1) as nat);
        if due_count(entries, t, (n - 1) as nat) < n - 1 {
            assert(entries[n - 2].0 > t);
            assert(entries[n - 2].0 <= entries[n - 1].0);
        }
    }
}

/// A buffer lasts as long as its frames take at the rate, rounded down to whole nanoseconds; at a
/// rate of zero it takes no time. More frames do not take less time.
pub proof fn law_buffers_last_as_long_as_their_frames(frames: nat, more: nat, sample_rate: nat)
    ensures
        sample_rate == 0 ==> duration_of(frames, sample_rate) == 0,
        sample_rate > 0 ==> duration_of(frames, sample_rate) * sample_rate <= frames
            * 1_000_000_000,
        sample_rate > 0 ==> frames * 1_000_000_000 < (duration_of(frames, sample_rate) + 1)
            * sample_rate,
        duration_of(frames, sample_rate) <= duration_of(frames + more, sample_rate),
{
    if sample_rate > 0 {
        let x = frames * 1_000_000_000;
        let y = (frames + more) * 1_000_000_000;
        assert(x / sample_rate * sample_rate <= x < (x / sample_rate + 1) * sample_rate)
            by (nonlinear_arith)
            requires
                sample_rate > 0,
        ;
        assert(x / sample_rate <= y / sample_rate) by (nonlinear_arith)
            requires
                sample_rate > 0,
                x <= y,
        ;
    }
}

/// Nothing has elapsed before the start, and from then on what has elapsed and the start make up
/// the target.
pub proof fn law_time_elapses_from_the_start(target: u64, start: u64)
    ensures
        target <= start ==> elapsed(target, start) == 0,
        start <= target ==> start + elapsed(target, start) == target,
{
}

/// Taking items off the schedule splits it: what is not marked stays and what is marked leaves,
/// each in its order.
pub proof fn law_marked_items_leave<T>(
    entries: Seq<(u64, T)>,
    marks: Seq<bool>,
    entry: (u64, T),
    mark: bool,
)
    requires
        marks.len() == entries.len(),
    ensures
        unmarked(entries, marks, 0).len() == 0,
        marked(entries, marks, 0).len() == 0,
        ({
            let n = entries.len();
            let stay = unmarked(entries, marks, n);
            let leave = marked(entries, marks, n);
            let more = entries.push(entry);
            let more_marks = marks.push(mark);
            &&& mark ==> {
                &&& unmarked(more, more_marks, n + 1) == stay
                &&& marked(more, more_marks, n + 1) == leave.push(entry.1)
            }
            &&& !mark ==> {
                &&& unmarked(more, more_marks, n + 1) == stay.push(entry)
                &&& marked(more, more_marks, n + 1) == leave
            }
        }),
{
    lemma_marked_before(entries, marks, entries.push(entry), marks.push(mark), entries.len());
}

proof fn lemma_marked_before<T>(
    entries: Seq<(u64, T)>,
    marks: Seq<bool>,
    more: Seq<(u64, T)>,
    more_marks: Seq<bool>,
    n: nat,
)
    requires
        forall|i: int| 0 <= i < n ==> entries[i] == more[i],
        forall|i: int| 0 <= i < n ==> marks[i] == more_marks[i],
    ensures
        unmarked(entries, marks, n) == unmarked(more, more_marks, n),
        marked(entries, marks, n) == marked(more, more_marks, n),
    decreases n,
{
    if n > 0 {
        lemma_marked_before(entries, marks, more, more_marks, (n - 1) as nat);
    }
}

} // verus!
