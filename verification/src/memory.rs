//! Bounded experience store: a fixed-capacity ring of transitions with
//! uniform random sampling.
//!
//! Once the ring is full, each push overwrites the oldest surviving entry,
//! so the buffer always holds the most recent `capacity` transitions. The
//! spec `contents` lists them oldest first, and `ring_after` together with
//! `lemma_ring_after_keeps_recent` states that law for a whole history of
//! pushes.

use vstd::prelude::*;
use vstd::multiset::Multiset;
use vstd::pervasive::VecAdditionalExecFns;
use crate::fixed::copy_vec_i64;
use crate::rng::rand_range;

verus! {

/// One recorded interaction, as mathematical values.
pub ghost struct TransitionModel {
    pub state: Seq<int>,
    pub action: Seq<int>,
    pub reward: int,
    pub next_state: Seq<int>,
    pub done: bool,
    pub log_prob: int,
    pub value: int,
}

/// One recorded interaction: observation and action taken, the reward and
/// next observation seen one tick later, and whether the episode ended.
/// `log_prob` and `value` are placeholders kept for a future optimizer.
#[derive(Clone, Debug)]
pub struct Transition {
    pub state: Vec<i64>,
    pub action: Vec<i64>,
    pub reward: i64,
    pub next_state: Vec<i64>,
    pub done: bool,
    pub log_prob: i64,
    pub value: i64,
}

impl View for Transition {
    type V = TransitionModel;

    open spec fn view(&self) -> TransitionModel {
        TransitionModel {
            state: self.state@.map_values(|x: i64| x as int),
            action: self.action@.map_values(|x: i64| x as int),
            reward: self.reward as int,
            next_state: self.next_state@.map_values(|x: i64| x as int),
            done: self.done,
            log_prob: self.log_prob as int,
            value: self.value as int,
        }
    }
}

/// The models of a run of stored transitions.
pub open spec fn models(v: Seq<Transition>) -> Seq<TransitionModel> {
    v.map_values(|t: Transition| t@)
}

/// What one push does to the holdings of a ring of capacity `cap`: append
/// while there is room, else drop the oldest and append.
pub open spec fn ring_push(c: Seq<TransitionModel>, cap: int, t: TransitionModel) -> Seq<
    TransitionModel,
> {
    if c.len() < cap {
        c.push(t)
    } else {
        c.skip(1).push(t)
    }
}

pub struct ReplayBuffer {
    pub buffer: Vec<Transition>,
    pub capacity: usize,
    pub position: usize,
    pub size: usize,
}

impl ReplayBuffer {
    pub open spec fn wf(self) -> bool {
        &&& 1 <= self.capacity <= i64::MAX
        &&& self.size == self.buffer@.len()
        &&& self.size <= self.capacity
        &&& self.position < self.capacity
        &&& (self.size < self.capacity ==> self.position == 0)
    }

    /// The transitions currently held, oldest first.
    pub open spec fn contents(self) -> Seq<TransitionModel> {
        let m = models(self.buffer@);
        if self.size < self.capacity {
            m
        } else {
            m.subrange(self.position as int, self.capacity as int) + m.subrange(
                0,
                self.position as int,
            )
        }
    }

    /// The buffer holds exactly `size` transitions (by cases on fullness).
    pub proof fn lemma_contents_len(self)
        requires
            self.wf(),
        ensures
            self.contents().len() == self.size,
    {
        if self.size < self.capacity {
        } else {
        }
    }

    pub fn new(capacity: usize) -> (r: ReplayBuffer)
        requires
            1 <= capacity <= i64::MAX,
        ensures
            r.wf(),
            r.capacity == capacity,
            r.contents() == Seq::<TransitionModel>::empty(),
    {
        let r = ReplayBuffer { buffer: Vec::new(), capacity, position: 0, size: 0 };
        proof {
            assert(r.contents() =~= Seq::<TransitionModel>::empty());
        }
        r
    }

    /// Appends while there is room; once full, overwrites the oldest entry,
    /// so exactly the most recent `capacity` transitions survive.
    pub fn push(&mut self, transition: Transition)
        requires
            old(self).wf(),
        ensures
            final(self).wf(),
            final(self).capacity == old(self).capacity,
            final(self).contents() == ring_push(
                old(self).contents(),
                old(self).capacity as int,
                transition@,
            ),
    {
        let ghost t_model = transition@;
        let ghost old_contents = self.contents();
        if self.size < self.capacity {
            self.buffer.push(transition);
            self.size = self.size + 1;
            proof {
                assert(models(self.buffer@) =~= models(old(self).buffer@).push(t_model));
                if self.size < self.capacity {
                    assert(self.contents() =~= old_contents.push(t_model));
                } else {
                    assert(self.contents() =~= old_contents.push(t_model));
                }
            }
        } else {
            let ghost p = self.position as int;
            let ghost cap = self.capacity as int;
            self.buffer.set(self.position, transition);
            self.position = if self.position + 1 == self.capacity {
                0
            } else {
                self.position + 1
            };
            proof {
                let m_old = models(old(self).buffer@);
                let m_new = models(self.buffer@);
                assert(m_new =~= m_old.update(p, t_model));
                assert(self.contents() =~= old_contents.skip(1).push(t_model));
            }
        }
    }

    /// Uniformly samples `min(batch_size, size)` transitions without
    /// replacement: distinct stored entries, each present in the buffer.
    pub fn sample(&self, batch_size: usize, rng: &mut rand::rngs::StdRng) -> (r: Vec<Transition>)
        requires
            self.wf(),
        ensures
            r@.len() == if batch_size <= self.contents().len() {
                batch_size as int
            } else {
                self.contents().len() as int
            },
            models(r@).to_multiset().subset_of(self.contents().to_multiset()),
    {
        let k = if batch_size < self.size {
            batch_size
        } else {
            self.size
        };
        let mut pool: Vec<Transition> = Vec::new();
        let mut i: usize = 0;
        while i < self.buffer.len()
            invariant
                i <= self.buffer@.len(),
                pool@.len() == i,
                models(pool@) =~= models(self.buffer@).subrange(0, i as int),
            decreases self.buffer@.len() - i,
        {
            pool.push(copy_transition(&self.buffer[i]));
            i = i + 1;
        }
        proof {
            assert(models(pool@) =~= models(self.buffer@));
            lemma_rotation_multiset(models(self.buffer@), self.position as int, self.size
                < self.capacity, self.contents());
        }
        let ghost full = self.contents().to_multiset();
        let mut j: usize = 0;
        while j < k
            invariant
                j <= k,
                k <= self.size,
                self.wf(),
                pool@.len() == self.size,
                models(pool@).to_multiset() == full,
            decreases k - j,
        {
            let ghost before = models(pool@);
            let pick = rand_range(rng, j as i64, self.size as i64);
            let p = pick as usize;
            if p != j {
                let a = copy_transition(&pool[j]);
                let b = copy_transition(&pool[p]);
                pool.set(j, b);
                pool.set(p, a);
                proof {
                    lemma_swap_multiset(before, j as int, p as int);
                    assert(models(pool@) =~= before.update(j as int, before[p as int]).update(
                        p as int,
                        before[j as int],
                    ));
                }
            }
            j = j + 1;
        }
        let ghost pre = models(pool@);
        pool.truncate(k);
        proof {
            assert(models(pool@) =~= pre.subrange(0, k as int));
            lemma_prefix_multiset_subset(pre, full, k as int);
        }
        pool
    }

    /// Forgets all stored transitions; the capacity is kept.
    pub fn clear(&mut self)
        requires
            old(self).wf(),
        ensures
            final(self).wf(),
            final(self).capacity == old(self).capacity,
            final(self).contents() == Seq::<TransitionModel>::empty(),
    {
        self.buffer.clear();
        self.position = 0;
        self.size = 0;
        proof {
            assert(self.contents() =~= Seq::<TransitionModel>::empty());
        }
    }

    pub fn is_full(&self) -> (r: bool)
        requires
            self.wf(),
        ensures
            r == (self.contents().len() >= self.capacity),
    {
        proof {
            self.lemma_contents_len();
        }
        self.size >= self.capacity
    }
}

/// A verified deep copy; nothing is taken on trust about `derive(Clone)`.
fn copy_transition(t: &Transition) -> (r: Transition)
    ensures
        r@ == t@,
{
    let r = Transition {
        state: copy_vec_i64(&t.state),
        action: copy_vec_i64(&t.action),
        reward: t.reward,
        next_state: copy_vec_i64(&t.next_state),
        done: t.done,
        log_prob: t.log_prob,
        value: t.value,
    };
    proof {
        assert(r@.state =~= t@.state);
        assert(r@.action =~= t@.action);
        assert(r@.next_state =~= t@.next_state);
    }
    r
}

/// The ring's contents are a rotation of the backing store, so the two hold
/// the same multiset of transitions.
proof fn lemma_rotation_multiset(
    m: Seq<TransitionModel>,
    p: int,
    partial: bool,
    contents: Seq<TransitionModel>,
)
    requires
        0 <= p <= m.len(),
        partial ==> contents == m,
        !partial ==> contents == m.subrange(p, m.len() as int) + m.subrange(0, p),
    ensures
        contents.to_multiset() == m.to_multiset(),
{
    if partial {
    } else {
        let a = m.subrange(0, p);
        let b = m.subrange(p, m.len() as int);
        vstd::seq_lib::lemma_multiset_commutative(a, b);
        vstd::seq_lib::lemma_multiset_commutative(b, a);
        assert(a + b =~= m);
    }
}

/// Swapping two entries leaves the multiset of entries unchanged.
proof fn lemma_swap_multiset(s: Seq<TransitionModel>, i: int, j: int)
    requires
        0 <= i < s.len(),
        0 <= j < s.len(),
        i != j,
    ensures
        s.update(i, s[j]).update(j, s[i]).to_multiset() == s.to_multiset(),
{
    broadcast use vstd::seq_lib::group_to_multiset_ensures;
    broadcast use vstd::multiset::group_multiset_axioms;
    broadcast use vstd::multiset::group_multiset_properties;

    let s1 = s.update(i, s[j]);
    let s2 = s1.update(j, s[i]);
    vstd::seq_lib::to_multiset_update(s, i, s[j]);
    vstd::seq_lib::to_multiset_update(s1, j, s[i]);
    assert(s1[j] == s[j]);
    assert(s.to_multiset().contains(s[i]));
    assert(s1.to_multiset().contains(s[j]));
    assert(s2.to_multiset() =~= s.to_multiset());
}

/// A prefix of a run holds a sub-multiset of the whole run.
proof fn lemma_prefix_multiset_subset(s: Seq<TransitionModel>, full: Multiset<TransitionModel>, k: int)
    requires
        0 <= k <= s.len(),
        s.to_multiset() == full,
    ensures
        s.subrange(0, k).to_multiset().subset_of(full),
    decreases s.len() - k,
{
    broadcast use vstd::seq_lib::group_to_multiset_ensures;
    broadcast use vstd::multiset::group_multiset_axioms;

    if k == s.len() {
        assert(s.subrange(0, k) =~= s);
    } else {
        lemma_prefix_multiset_subset(s, full, k + 1);
        assert(s.subrange(0, k + 1) =~= s.subrange(0, k).push(s[k]));
    }
}

/// The holdings of a ring of capacity `cap` after each transition of `hist`
/// was pushed in turn, starting empty.
pub open spec fn ring_after(cap: int, hist: Seq<TransitionModel>) -> Seq<TransitionModel>
    decreases hist.len(),
{
    if hist.len() == 0 {
        Seq::empty()
    } else {
        ring_push(ring_after(cap, hist.drop_last()), cap, hist.last())
    }
}

/// After any history of pushes, the buffer holds exactly the
/// `min(capacity, history length)` most recently pushed transitions,
/// oldest first — the shape `ReplayBuffer::push` steps through.
pub proof fn lemma_ring_after_keeps_recent(cap: int, hist: Seq<TransitionModel>)
    requires
        cap >= 1,
    ensures
        hist.len() <= cap ==> ring_after(cap, hist) == hist,
        hist.len() > cap ==> ring_after(cap, hist) == hist.skip(hist.len() - cap),
    decreases hist.len(),
{
    if hist.len() == 0 {
        assert(ring_after(cap, hist) =~= hist);
    } else {
        let h = hist.drop_last();
        lemma_ring_after_keeps_recent(cap, h);
        let prev = ring_after(cap, h);
        if hist.len() <= cap {
            assert(prev == h);
            assert(prev.push(hist.last()) =~= hist);
        } else if hist.len() == cap + 1 {
            assert(prev == h);
            assert(prev.skip(1).push(hist.last()) =~= hist.skip(1));
        } else {
            assert(prev == h.skip(h.len() - cap));
            assert(prev.skip(1).push(hist.last()) =~= hist.skip(hist.len() - cap));
        }
    }
}

} // verus!
