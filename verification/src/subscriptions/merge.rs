//! In-order merging of fetched parts.
//!
//! Parts are fetched concurrently and finish in any order.  Each part is
//! numbered by the position of its link; a finished part is held back until
//! every earlier part has been merged, so the merged text always follows
//! link order.

use std::collections::BTreeMap;
use vstd::prelude::*;
use crate::subscriptions::{append_merged_content, merged_with};

verus! {

broadcast use vstd::laws_cmp::group_laws_cmp;

/// A part's text, `None` for a part whose fetch produced nothing.
pub open spec fn opt_text(c: Option<String>) -> Option<Seq<char>> {
    match c {
        Some(s) => Some(s@),
        None => None,
    }
}

/// The merged text after one part; a part without text changes nothing.
pub open spec fn merged_with_part(m: Seq<char>, c: Option<Seq<char>>) -> Seq<char> {
    match c {
        Some(s) => merged_with(m, s),
        None => m,
    }
}

/// The parts held back, by position.
pub type PendingView = Map<usize, Option<Seq<char>>>;

/// The merge state as plain values: held-back parts, the position of the
/// next part to merge, and the merged text.
pub type MergeView = (PendingView, nat, Seq<char>);

/// The first position from `next` on that has no held-back part.
pub open spec fn run_end(p: PendingView, next: nat) -> nat
    decreases usize::MAX + 1 - next,
{
    if next <= usize::MAX && p.contains_key(next as usize) {
        run_end(p, next + 1)
    } else {
        next
    }
}

/// `m` with the held-back parts at positions `from .. to` merged in order.
pub open spec fn merge_run(m: Seq<char>, p: PendingView, from: nat, to: nat) -> Seq<char>
    decreases to - from,
{
    if to <= from {
        m
    } else {
        merged_with_part(merge_run(m, p, from, (to - 1) as nat), p[(to - 1) as usize])
    }
}

/// `p` without the positions `from .. to`.
pub open spec fn remove_range(p: PendingView, from: nat, to: nat) -> PendingView {
    Map::new(|k: usize| p.contains_key(k) && !(from <= k < to), |k: usize| p[k])
}

/// Accepting part `idx`: it is held back with the others, then the run of
/// held-back parts that starts at the next position is merged in order and
/// released.
pub open spec fn accept_spec(st: MergeView, idx: usize, c: Option<Seq<char>>) -> MergeView {
    let p = st.0.insert(idx, c);
    let e = run_end(p, st.1);
    (remove_range(p, st.1, e), e, merge_run(st.2, p, st.1, e))
}

/// The merge of parts arriving in the given order, from the empty state.
pub open spec fn merge_arrivals(arrivals: Seq<(usize, Option<Seq<char>>)>) -> MergeView
    decreases arrivals.len(),
{
    if arrivals.len() == 0 {
        (Map::empty(), 0, Seq::empty())
    } else {
        let a = arrivals.last();
        accept_spec(merge_arrivals(arrivals.drop_last()), a.0, a.1)
    }
}

/// All parts merged in position order.
pub open spec fn merge_all(contents: Seq<Option<Seq<char>>>) -> Seq<char>
    decreases contents.len(),
{
    if contents.len() == 0 {
        Seq::empty()
    } else {
        merged_with_part(merge_all(contents.drop_last()), contents.last())
    }
}

/// The merge of a fetch's parts, filled as the parts finish.
pub struct MergeState {
    pub pending: BTreeMap<usize, Option<String>>,
    pub next_part_index: usize,
    pub merged: String,
}

impl View for MergeState {
    type V = MergeView;

    open spec fn view(&self) -> MergeView {
        (
            Map::new(
                |k: usize| self.pending@.contains_key(k),
                |k: usize| opt_text(self.pending@[k]),
            ),
            self.next_part_index as nat,
            self.merged@,
        )
    }
}

impl MergeState {
    /// Held-back positions are below `usize::MAX`.
    pub open spec fn wf(&self) -> bool {
        forall|k: usize| self.pending@.contains_key(k) ==> k < usize::MAX
    }

    /// Nothing merged or held back yet.
    pub fn new() -> (r: MergeState)
        ensures
            r.wf(),
            r@ == (Map::<usize, Option<Seq<char>>>::empty(), 0nat, Seq::<char>::empty()),
    {
        let r = MergeState { pending: BTreeMap::new(), next_part_index: 0, merged: String::new() };
        proof {
            assert(r@.0 =~= Map::<usize, Option<Seq<char>>>::empty());
        }
        r
    }

    /// Accepts the part at position `idx`.
    pub fn accept(&mut self, idx: usize, content: Option<String>)
        requires
            old(self).wf(),
            idx < usize::MAX,
        ensures
            final(self).wf(),
            final(self)@ == accept_spec(old(self)@, idx, opt_text(content)),
    {
        let ghost c = opt_text(content);
        let ghost p = old(self)@.0.insert(idx, c);
        let ghost start = self.next_part_index as nat;
        let ghost m0 = self.merged@;
        self.pending.insert(idx, content);
        proof {
            assert(self@.0 =~= p);
        }
        loop
            invariant
                self@.0 == remove_range(p, start, self.next_part_index as nat),
                start <= self.next_part_index,
                forall|k: usize| p.contains_key(k) ==> k < usize::MAX,
                forall|k: usize| self.pending@.contains_key(k) ==> k < usize::MAX,
                run_end(p, start) == run_end(p, self.next_part_index as nat),
                self.merged@ == merge_run(m0, p, start, self.next_part_index as nat),
            ensures
                self@.0 == remove_range(p, start, run_end(p, start)),
                self.next_part_index == run_end(p, start),
                self.merged@ == merge_run(m0, p, start, run_end(p, start)),
                forall|k: usize| self.pending@.contains_key(k) ==> k < usize::MAX,
            decreases usize::MAX - self.next_part_index,
        {
            let key = self.next_part_index;
            let ghost before_pending = self.pending@;
            proof {
                assert(self@.0.contains_key(key) == before_pending.contains_key(key));
                assert(remove_range(p, start, key as nat).contains_key(key) == p.contains_key(key));
                if before_pending.contains_key(key) {
                    assert(self@.0[key] == opt_text(before_pending[key]));
                    assert(remove_range(p, start, key as nat)[key] == p[key]);
                }
            }
            let ghost old_view = self@.0;
            let removed = self.pending.remove(&key);
            match removed {
                None => {
                    proof {
                        assert(!before_pending.contains_key(key));
                        assert(!p.contains_key(key));
                        assert(run_end(p, key as nat) == key);
                        assert(self@.0 =~= remove_range(p, start, key as nat));
                    }
                    break;
                },
                Some(part) => {
                    let ghost before = self.merged@;
                    proof {
                        assert(before_pending.contains_key(key));
                        assert(self.pending@ == before_pending.remove(key));
                        assert(p.contains_key(key));
                        assert(p[key] == opt_text(part));
                    }
                    match part {
                        Some(text) => append_merged_content(&mut self.merged, text.as_str()),
                        None => {},
                    }
                    self.next_part_index = key + 1;
                    proof {
                        assert(self.merged@ == merge_run(m0, p, start, (key + 1) as nat));
                        let target = remove_range(p, start, (key + 1) as nat);
                        assert forall|k: usize| #[trigger] self@.0.contains_key(k) == target.contains_key(k) by {
                            assert(old_view.contains_key(k) == before_pending.contains_key(k));
                            assert(old_view.contains_key(k) == remove_range(p, start, key as nat).contains_key(k));
                        }
                        assert forall|k: usize| self@.0.contains_key(k) implies self@.0[k] == target[k] by {
                            assert(before_pending.contains_key(k));
                            assert(old_view[k] == opt_text(before_pending[k]));
                            assert(old_view[k] == remove_range(p, start, key as nat)[k]);
                        }
                        assert(self@.0 =~= target);
                    }
                },
            }
        }
    }
}

/// The merge after the whole run of parts from position `from` to `to`,
/// when those parts are the contents at their positions.
proof fn lemma_merge_run_all(contents: Seq<Option<Seq<char>>>, p: PendingView, from: nat, to: nat)
    requires
        from <= to <= contents.len(),
        forall|k: usize| #![trigger p.contains_key(k)] from <= k < to ==> p.contains_key(k) && p[k] == contents[k as int],
        to <= usize::MAX,
    ensures
        merge_run(merge_all(contents.take(from as int)), p, from, to) == merge_all(contents.take(to as int)),
    decreases to - from,
{
    if to > from {
        lemma_merge_run_all(contents, p, from, (to - 1) as nat);
        assert(p.contains_key((to - 1) as usize));
        assert(contents.take(to as int).drop_last() =~= contents.take(to - 1));
        assert(contents.take(to as int).last() == contents[to - 1]);
    }
}

/// The run from `next` ends at a position that is not held back, and every
/// position before it is.
proof fn lemma_run_end(p: PendingView, next: nat)
    requires
        forall|k: usize| p.contains_key(k) ==> k < usize::MAX,
        next <= usize::MAX,
    ensures
        next <= run_end(p, next) <= usize::MAX,
        !p.contains_key(run_end(p, next) as usize),
        forall|k: usize| next <= k < run_end(p, next) ==> #[trigger] p.contains_key(k),
    decreases usize::MAX + 1 - next,
{
    if next <= usize::MAX && p.contains_key(next as usize) {
        lemma_run_end(p, next + 1);
    }
}

/// The positions that have arrived after the first `i` arrivals.
pub open spec fn arrived(order: Seq<usize>, i: int) -> Set<usize> {
    Set::new(|k: usize| exists|j: int| 0 <= j < i && order[j] == k)
}

/// The arrivals of parts in the given order of positions.
pub open spec fn arrivals_in(order: Seq<usize>, contents: Seq<Option<Seq<char>>>) -> Seq<(usize, Option<Seq<char>>)> {
    order.map_values(|k: usize| (k, contents[k as int]))
}

/// `order` lists each position `0 .. n` exactly once.
pub open spec fn is_permutation(order: Seq<usize>, n: nat) -> bool {
    &&& order.len() == n
    &&& forall|j: int| 0 <= j < order.len() ==> #[trigger] order[j] < n
    &&& forall|i: int, j: int| 0 <= i < j < order.len() ==> order[i] != order[j]
}

/// The state after some arrivals: every position before `next` has
/// arrived and `next` has not; held back are exactly the arrived positions
/// from `next` on, with their contents; the merged text is the merge of all
/// positions before `next`.
spec fn merge_invariant(st: MergeView, contents: Seq<Option<Seq<char>>>, a: Set<usize>) -> bool {
    &&& st.1 <= contents.len()
    &&& forall|k: usize| (k as int) < st.1 ==> a.contains(k)
    &&& !a.contains(st.1 as usize) || st.1 == contents.len()
    &&& forall|k: usize| #[trigger] st.0.contains_key(k) <==> (a.contains(k) && k >= st.1)
    &&& forall|k: usize| st.0.contains_key(k) ==> st.0[k] == contents[k as int]
    &&& st.2 == merge_all(contents.take(st.1 as int))
}

proof fn lemma_invariant_step(
    st: MergeView,
    contents: Seq<Option<Seq<char>>>,
    a: Set<usize>,
    idx: usize,
)
    requires
        merge_invariant(st, contents, a),
        contents.len() < usize::MAX,
        forall|k: usize| a.contains(k) ==> (k as int) < contents.len(),
        (idx as int) < contents.len(),
        !a.contains(idx),
    ensures
        merge_invariant(accept_spec(st, idx, contents[idx as int]), contents, a.insert(idx)),
{
    let p = st.0.insert(idx, contents[idx as int]);
    let a2 = a.insert(idx);
    assert forall|k: usize| p.contains_key(k) implies k < usize::MAX by {
        if k != idx {
            assert(st.0.contains_key(k));
            assert(a.contains(k));
        }
    }
    lemma_run_end(p, st.1);
    let e = run_end(p, st.1);
    assert forall|k: usize| #![trigger p.contains_key(k)] st.1 <= k < e implies p.contains_key(k) && p[k]
        == contents[k as int] by {
        assert(p.contains_key(k));
    }
    if e > contents.len() {
        assert(st.1 <= contents.len() as int);
        assert(contents.len() < e);
        assert(p.contains_key(contents.len() as usize));
    }
    lemma_merge_run_all(contents, p, st.1, e);
    let st2 = accept_spec(st, idx, contents[idx as int]);
    assert forall|k: usize| (k as int) < st2.1 implies a2.contains(k) by {
        if (k as int) >= st.1 {
            assert(p.contains_key(k));
            if k != idx {
                assert(st.0.contains_key(k));
            }
        }
    }
    if a2.contains(e as usize) && e < contents.len() {
        assert(e >= st.1);
        if (e as usize) != idx {
            assert(a.contains(e as usize));
            assert(st.0.contains_key(e as usize));
        }
        assert(p.contains_key(e as usize));
    }
    assert forall|k: usize| #[trigger] st2.0.contains_key(k) <==> (a2.contains(k) && k >= st2.1) by {
        if a2.contains(k) && k >= e {
            if k != idx {
                assert(st.0.contains_key(k));
            }
        }
    }
}

proof fn lemma_merge_arrivals_invariant(order: Seq<usize>, contents: Seq<Option<Seq<char>>>, i: int)
    requires
        is_permutation(order, contents.len()),
        contents.len() < usize::MAX,
        0 <= i <= order.len(),
    ensures
        merge_invariant(merge_arrivals(arrivals_in(order, contents).take(i)), contents, arrived(order, i)),
    decreases i,
{
    let arr = arrivals_in(order, contents);
    if i == 0 {
        assert(arr.take(0) =~= Seq::<(usize, Option<Seq<char>>)>::empty());
        assert(contents.take(0) =~= Seq::<Option<Seq<char>>>::empty());
        assert(!arrived(order, 0).contains(0usize));
    } else {
        lemma_merge_arrivals_invariant(order, contents, i - 1);
        assert(arr.take(i).drop_last() =~= arr.take(i - 1));
        let idx = order[i - 1];
        assert(arr.take(i).last() == (idx, contents[idx as int]));
        let a = arrived(order, i - 1);
        assert forall|k: usize| a.contains(k) implies (k as int) < contents.len() by {
            let j = choose|j: int| 0 <= j < i - 1 && order[j] == k;
            assert(order[j] < contents.len());
        }
        assert(!a.contains(idx)) by {
            if a.contains(idx) {
                let j = choose|j: int| 0 <= j < i - 1 && order[j] == idx;
                assert(order[j] != order[i - 1]);
            }
        }
        lemma_invariant_step(merge_arrivals(arr.take(i - 1)), contents, a, idx);
        assert(a.insert(idx) =~= arrived(order, i));
    }
}

/// Whatever order the fetches of the parts finish in, once every part has
/// been accepted the merged text is the merge of all parts in link order,
/// and nothing is held back.
pub proof fn lemma_merge_follows_link_order(order: Seq<usize>, contents: Seq<Option<Seq<char>>>)
    requires
        is_permutation(order, contents.len()),
        contents.len() < usize::MAX,
    ensures
        merge_arrivals(arrivals_in(order, contents)).2 == merge_all(contents),
        merge_arrivals(arrivals_in(order, contents)).1 == contents.len(),
        merge_arrivals(arrivals_in(order, contents)).0 == Map::<usize, Option<Seq<char>>>::empty(),
{
    let n = contents.len();
    lemma_merge_arrivals_invariant(order, contents, n as int);
    let arr = arrivals_in(order, contents);
    assert(arr.take(n as int) =~= arr);
    let st = merge_arrivals(arr);
    let a = arrived(order, n as int);
    assert forall|k: usize| (k as int) < n implies a.contains(k) by {
        lemma_permutation_covers(order, n, k);
    }
    if st.1 < n {
        assert(a.contains(st.1 as usize));
    }
    assert(contents.take(n as int) =~= contents);
    assert(st.0 =~= Map::<usize, Option<Seq<char>>>::empty()) by {
        assert forall|k: usize| !st.0.contains_key(k) by {
            if st.0.contains_key(k) {
                assert(a.contains(k));
                let j = choose|j: int| 0 <= j < n && order[j] == k;
                assert(order[j] < n);
            }
        }
    }
}

/// A permutation of `0 .. n` holds every position below `n`.
proof fn lemma_permutation_covers(order: Seq<usize>, n: nat, k: usize)
    requires
        is_permutation(order, n),
        (k as int) < n,
        n < usize::MAX,
    ensures
        exists|j: int| 0 <= j < n && order[j] == k,
{
    let s = order.to_set();
    assert forall|x: usize| s.contains(x) implies (x as int) < n by {
        let j = choose|j: int| 0 <= j < order.len() && order[j] == x;
    }
    order.unique_seq_to_set();
    let below = Set::new(|x: usize| (x as int) < n);
    assert(s.subset_of(below));
    lemma_set_below_len(n);
    if !s.contains(k) {
        vstd::set_lib::lemma_len_subset(s, below.remove(k));
        assert(false);
    }
}

proof fn lemma_set_below_len(n: nat)
    requires
        n <= usize::MAX + 1,
    ensures
        Set::new(|x: usize| (x as int) < n).finite(),
        Set::new(|x: usize| (x as int) < n).len() == n,
    decreases n,
{
    let s = Set::new(|x: usize| (x as int) < n);
    if n == 0 {
        assert(s =~= Set::<usize>::empty());
    } else {
        lemma_set_below_len((n - 1) as nat);
        let t = Set::new(|x: usize| (x as int) < n - 1);
        assert(s =~= t.insert((n - 1) as usize));
    }
}

/// `part` occurs in `text` at some position.
pub open spec fn occurs_in(part: Seq<char>, text: Seq<char>) -> bool {
    exists|off: int| 0 <= off && off + part.len() <= text.len() && #[trigger] text.subrange(off, off + part.len()) == part
}

/// Merging keeps the text merged so far as the start of the result and
/// ends the result with the added part when that part is not empty.
proof fn lemma_merged_with_extends(m: Seq<char>, c: Seq<char>)
    ensures
        merged_with(m, c).len() >= m.len(),
        merged_with(m, c).subrange(0, m.len() as int) == m,
        c.len() > 0 ==> merged_with(m, c).len() >= c.len() && merged_with(m, c).subrange(
            merged_with(m, c).len() - c.len(),
            merged_with(m, c).len() as int,
        ) == c,
{
    crate::subscriptions::lemma_merge_appends_part(m, c);
    let r = merged_with(m, c);
    assert(r.subrange(0, m.len() as int) =~= m);
    if c.len() > 0 {
        assert(r.subrange(r.len() - c.len(), r.len() as int) =~= c);
    }
}

/// Every part that was fetched with some text occurs in the merged feed:
/// no part is dropped, whatever the text merged before it.
pub proof fn lemma_every_part_in_feed(contents: Seq<Option<Seq<char>>>, i: int)
    requires
        0 <= i < contents.len(),
        contents[i] matches Some(c) && c.len() > 0,
    ensures
        occurs_in(contents[i]->Some_0, merge_all(contents)),
    decreases contents.len(),
{
    let c = contents[i]->Some_0;
    let prev = contents.drop_last();
    let m = merge_all(prev);
    let r = merge_all(contents);
    if i == contents.len() - 1 {
        lemma_merged_with_extends(m, c);
        let off = r.len() - c.len();
        assert(r.subrange(off, off + c.len()) == c);
    } else {
        assert(prev[i] == contents[i]);
        lemma_every_part_in_feed(prev, i);
        let off = choose|off: int| 0 <= off && off + c.len() <= m.len() && #[trigger] m.subrange(off, off + c.len()) == c;
        match contents.last() {
            Some(d) => {
                lemma_merged_with_extends(m, d);
                assert(r.subrange(off, off + c.len()) =~= r.subrange(0, m.len() as int).subrange(off, off + c.len()));
            },
            None => {},
        }
        assert(r.subrange(off, off + c.len()) == c);
    }
}

} // verus!
