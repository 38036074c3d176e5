//! The load requests that were sent and whose results have not all been handled yet.
//! Load results name their file by the request id alone; this is where they wait.

use vstd::prelude::*;
use vstd::hash_map::HashMapWithView;
use crate::image_cache::image_loader::{LoadRequest, LoadResult, result_req_id};

verus! {

broadcast use vstd::std_specs::hash::group_hash_axioms;

/// What is known of one request: whether it was cancelled, whether its last result
/// arrived, and the results not yet taken.
pub struct PendingRequestInfo<F> {
    cancelled: bool,
    finished: bool,
    results: Vec<LoadResult<F>>,
}

/// The state of a request: cancelled, finished, and the results waiting to be taken.
pub type RequestState<F> = (bool, bool, Seq<LoadResult<F>>);

impl<F> PendingRequestInfo<F> {
    /// The state this info describes.
    pub closed spec fn state(&self) -> RequestState<F> {
        (self.cancelled, self.finished, self.results@)
    }

    /// Marks the request as cancelled: its results are dropped when they arrive.
    pub fn cancel(&mut self)
        ensures
            final(self).state() == (true, old(self).state().1, old(self).state().2),
    {
        self.cancelled = true;
    }

    /// Whether the request was cancelled.
    pub fn is_cancelled(&self) -> (r: bool)
        ensures
            r == self.state().0,
    {
        self.cancelled
    }
}

/// The requests that were sent, by request id.
#[verifier::reject_recursive_types(F)]
pub struct PendingRequests<F> {
    by_id: HashMapWithView<u32, PendingRequestInfo<F>>,
    /// Every id of `by_id`, once each.
    ids: Vec<u32>,
}

/// The requests after the results of `id` are taken: a finished request is forgotten,
/// another keeps no result.
pub open spec fn taken_map<F>(m: Map<u32, RequestState<F>>, id: u32) -> Map<u32, RequestState<F>> {
    if !m.dom().contains(id) {
        m
    } else if m[id].1 {
        m.remove(id)
    } else {
        m.insert(id, (m[id].0, false, Seq::empty()))
    }
}

/// The requests after the result `lr` arrived: it waits after the earlier results of
/// its request.
pub open spec fn arrived<F>(m: Map<u32, RequestState<F>>, lr: LoadResult<F>) -> Map<u32, RequestState<F>> {
    let id = result_req_id(lr);
    m.insert(id, (m[id].0, m[id].1, m[id].2.push(lr)))
}

/// The requests after `id` is marked finished: one with no waiting result is
/// forgotten.
pub open spec fn finished_map<F>(m: Map<u32, RequestState<F>>, id: u32) -> Map<u32, RequestState<F>> {
    if !m.dom().contains(id) {
        m
    } else if m[id].2.len() == 0 {
        m.remove(id)
    } else {
        m.insert(id, (m[id].0, true, m[id].2))
    }
}

/// The number of ids in `ids` whose request is not finished.
pub open spec fn unfinished_in<F>(ids: Seq<u32>, m: Map<u32, RequestState<F>>) -> nat
    decreases ids.len(),
{
    if ids.len() == 0 {
        0
    } else {
        unfinished_in(ids.drop_last(), m) + if m[ids.last()].1 { 0nat } else { 1nat }
    }
}

/// The ids of the requests that are not finished.
pub open spec fn unfinished_ids<F>(m: Map<u32, RequestState<F>>) -> Set<u32> {
    m.dom().filter(|id: u32| !m[id].1)
}

impl<F> PendingRequests<F> {
    /// The requests by id.
    pub closed spec fn view(&self) -> Map<u32, RequestState<F>> {
        Map::new(|id: u32| self.by_id@.contains_key(id), |id: u32| self.by_id@[id].state())
    }

    /// The ids are those of the map, each once.
    pub closed spec fn wf(&self) -> bool {
        &&& self.ids@.no_duplicates()
        &&& forall|id: u32| #[trigger] self.ids@.contains(id) <==> self.by_id@.contains_key(id)
    }

    proof fn lemma_dom_finite(&self)
        requires
            self.wf(),
        ensures
            self.view().dom() == self.ids@.to_set(),
            self.view().dom().finite(),
    {
        assert(self.view().dom() =~= self.ids@.to_set());
    }

    /// No request.
    pub fn new() -> (r: Self)
        ensures
            r.wf(),
            r.view() == Map::<u32, RequestState<F>>::empty(),
    {
        let r = PendingRequests { by_id: HashMapWithView::new(), ids: Vec::new() };
        assert(r.view() =~= Map::<u32, RequestState<F>>::empty());
        r
    }

    /// Removes `id` from the id list.
    fn forget_id(&mut self, id: u32)
        requires
            old(self).ids@.no_duplicates(),
            old(self).ids@.contains(id),
        ensures
            final(self).by_id == old(self).by_id,
            final(self).ids@.no_duplicates(),
            forall|x: u32| #[trigger] final(self).ids@.contains(x) <==> (old(self).ids@.contains(x) && x != id),
    {
        let mut i: usize = 0;
        while i < self.ids.len()
            invariant
                0 <= i <= self.ids.len(),
                self.ids == old(self).ids,
                self.by_id == old(self).by_id,
                self.ids@.no_duplicates(),
                self.ids@.contains(id),
                forall|j: int| 0 <= j < i ==> self.ids@[j] != id,
            decreases self.ids.len() - i,
        {
            if self.ids[i] == id {
                let ghost before = self.ids@;
                self.ids.remove(i);
                assert(self.ids@ =~= before.subrange(0, i as int) + before.subrange(i + 1, before.len() as int));
                assert forall|x: u32| #[trigger] self.ids@.contains(x) <==> (before.contains(x) && x != id) by {
                    if self.ids@.contains(x) {
                        let k = choose|k: int| 0 <= k < self.ids@.len() && self.ids@[k] == x;
                        if k < i {
                            assert(before[k] == x);
                        } else {
                            assert(before[k + 1] == x);
                        }
                    }
                    if before.contains(x) && x != id {
                        let k = choose|k: int| 0 <= k < before.len() && before[k] == x;
                        if k < i {
                            assert(self.ids@[k] == x);
                        } else {
                            assert(k != i);
                            assert(self.ids@[k - 1] == x);
                        }
                    }
                };
                return;
            }
            i = i + 1;
        }
    }

    /// Takes the results that arrived for `id`. A finished request is forgotten once
    /// its results are taken. `None` when there is no such request.
    pub fn take_results(&mut self, id: u32) -> (r: Option<Vec<LoadResult<F>>>)
        requires
            old(self).wf(),
        ensures
            final(self).wf(),
            final(self).view() == taken_map(old(self).view(), id),
            match r {
                None => !old(self).view().dom().contains(id),
                Some(res) => old(self).view().dom().contains(id) && res@ == old(self).view()[id].2,
            },
    {
        let ghost old_view = self.view();
        match self.by_id.remove(&id) {
            None => {
                assert(self.view() =~= old_view);
                None
            },
            Some(info) => {
                if info.finished {
                    proof {
                        assert(self.ids@.contains(id));
                    }
                    self.forget_id(id);
                    assert(self.view() =~= old_view.remove(id));
                    Some(info.results)
                } else {
                    let PendingRequestInfo { cancelled, finished, results } = info;
                    self.by_id.insert(id, PendingRequestInfo { cancelled, finished, results: Vec::new() });
                    assert(self.view() =~= old_view.insert(id, (cancelled, false, Seq::empty())));
                    Some(results)
                }
            },
        }
    }

    /// Every request id, finished requests included, each once.
    pub fn get_all_ids(&self) -> (r: Vec<u32>)
        requires
            self.wf(),
        ensures
            r@.no_duplicates(),
            r@.to_set() == self.view().dom(),
    {
        proof {
            self.lemma_dom_finite();
        }
        self.ids.clone()
    }

    /// Whether the request `id` was cancelled; `None` when it is unknown or finished.
    pub fn cancelled(&self, id: &u32) -> (r: Option<bool>)
        ensures
            r == (if self.view().dom().contains(*id) && !self.view()[*id].1 {
                Some(self.view()[*id].0)
            } else {
                None
            }),
    {
        match self.by_id.get(id) {
            Some(info) => {
                if info.finished {
                    None
                } else {
                    Some(info.cancelled)
                }
            },
            None => None,
        }
    }

    /// Whether the request `id` is known and not finished.
    pub fn contains(&self, id: &u32) -> (r: bool)
        ensures
            r == (self.view().dom().contains(*id) && !self.view()[*id].1),
    {
        match self.by_id.get(id) {
            Some(info) => !info.finished,
            None => false,
        }
    }

    /// Whether results for `id` can still be stored: the request is known, finished or not.
    pub fn expects_results(&self, id: &u32) -> (r: bool)
        ensures
            r == self.view().dom().contains(*id),
    {
        self.by_id.contains_key(id)
    }

    /// Marks the request `id` finished. One with no waiting result is forgotten at once.
    pub fn set_finished(&mut self, id: &u32)
        requires
            old(self).wf(),
        ensures
            final(self).wf(),
            final(self).view() == finished_map(old(self).view(), *id),
    {
        let ghost old_view = self.view();
        let id = *id;
        match self.by_id.remove(&id) {
            None => {
                assert(self.view() =~= old_view);
            },
            Some(info) => {
                if info.results.len() == 0 {
                    proof {
                        assert(self.ids@.contains(id));
                    }
                    self.forget_id(id);
                    assert(self.view() =~= old_view.remove(id));
                } else {
                    let PendingRequestInfo { cancelled, finished, results } = info;
                    let ghost rs = results@;
                    self.by_id.insert(id, PendingRequestInfo { cancelled, finished: true, results });
                    assert(self.view() =~= old_view.insert(id, (cancelled, true, rs)));
                }
            },
        }
    }

    /// The number of requests that are not finished.
    pub fn len(&self) -> (r: usize)
        requires
            self.wf(),
        ensures
            r == unfinished_ids(self.view()).len(),
    {
        let mut count: usize = 0;
        let mut i: usize = 0;
        while i < self.ids.len()
            invariant
                0 <= i <= self.ids.len(),
                self.wf(),
                count == unfinished_in(self.ids@.take(i as int), self.view()),
                count <= i,
            decreases self.ids.len() - i,
        {
            proof {
                assert(self.ids@.take(i + 1).drop_last() =~= self.ids@.take(i as int));
            }
            let id = self.ids[i];
            proof {
                assert(self.ids@.contains(id));
            }
            match self.by_id.get(&id) {
                Some(info) => {
                    if !info.finished {
                        count = count + 1;
                    }
                },
                None => {},
            }
            i = i + 1;
        }
        proof {
            assert(self.ids@.take(self.ids@.len() as int) =~= self.ids@);
            self.lemma_dom_finite();
            lemma_unfinished_count(self.ids@, self.view());
        }
        count
    }

    /// Appends a result to its request: `true` when the request is known, `false`, with
    /// nothing changed, otherwise.
    pub fn add_load_result(&mut self, load_result: LoadResult<F>) -> (r: bool)
        requires
            old(self).wf(),
        ensures
            final(self).wf(),
            r == old(self).view().dom().contains(result_req_id(load_result)),
            r ==> final(self).view() == arrived(old(self).view(), load_result),
            !r ==> final(self).view() == old(self).view(),
    {
        let ghost old_view = self.view();
        let ghost lr = load_result;
        let id = load_result.req_id();
        match self.by_id.remove(&id) {
            Some(info) => {
                let PendingRequestInfo { cancelled, finished, mut results } = info;
                results.push(load_result);
                let ghost rs = results@;
                self.by_id.insert(id, PendingRequestInfo { cancelled, finished, results });
                assert(self.view() =~= old_view.insert(id, (cancelled, finished, rs)));
                true
            },
            None => {
                assert(self.view() =~= old_view);
                false
            },
        }
    }

    /// Registers a sent request, replacing any earlier one with the same id.
    pub fn add_request(&mut self, request: LoadRequest)
        requires
            old(self).wf(),
        ensures
            final(self).wf(),
            final(self).view() == old(self).view().insert(request.req_id, (false, false, Seq::empty())),
    {
        let ghost old_view = self.view();
        let id = request.req_id;
        if !self.by_id.contains_key(&id) {
            proof {
                assert(!old(self).ids@.contains(id));
            }
            self.ids.push(id);
            proof {
                assert forall|a: int, b: int| 0 <= a < self.ids@.len() && 0 <= b < self.ids@.len() && a != b
                    implies self.ids@[a] != self.ids@[b] by {
                    if a == self.ids@.len() - 1 {
                        assert(old(self).ids@[b] == self.ids@[b]);
                    } else if b == self.ids@.len() - 1 {
                        assert(old(self).ids@[a] == self.ids@[a]);
                    } else {
                        assert(old(self).ids@[a] == self.ids@[a]);
                        assert(old(self).ids@[b] == self.ids@[b]);
                    }
                };
                assert forall|x: u32| #[trigger] self.ids@.contains(x) <==> (old(self).ids@.contains(x) || x == id) by {
                    if self.ids@.contains(x) {
                        let k = choose|k: int| 0 <= k < self.ids@.len() && self.ids@[k] == x;
                        if k < old(self).ids@.len() {
                            assert(old(self).ids@[k] == x);
                        }
                    }
                    if old(self).ids@.contains(x) {
                        let k = choose|k: int| 0 <= k < old(self).ids@.len() && old(self).ids@[k] == x;
                        assert(self.ids@[k] == x);
                    }
                    if x == id {
                        assert(self.ids@[self.ids@.len() - 1] == x);
                    }
                };
            }
        }
        self.by_id.insert(id, PendingRequestInfo { cancelled: false, finished: false, results: Vec::new() });
        assert(self.view() =~= old_view.insert(id, (false, false, Seq::empty())));
    }

    /// The state of the request `id`, when it is known and not finished.
    pub fn get(&self, id: &u32) -> (r: Option<&PendingRequestInfo<F>>)
        ensures
            match r {
                Some(info) => self.view().dom().contains(*id) && !self.view()[*id].1 && info.state()
                    == self.view()[*id],
                None => !(self.view().dom().contains(*id) && !self.view()[*id].1),
            },
    {
        match self.by_id.get(id) {
            Some(info) => {
                if info.finished {
                    None
                } else {
                    Some(info)
                }
            },
            None => None,
        }
    }

    /// Cancels every request that is not finished.
    pub fn cancel_unfinished(&mut self)
        requires
            old(self).wf(),
        ensures
            final(self).wf(),
            final(self).view().dom() == old(self).view().dom(),
            forall|id: u32| #[trigger] final(self).view().dom().contains(id) ==> final(self).view()[id] == cancelled_state(
                old(self).view()[id],
            ),
    {
        let ghost old_view = self.view();
        let mut i: usize = 0;
        while i < self.ids.len()
            invariant
                0 <= i <= self.ids.len(),
                self.wf(),
                self.ids == old(self).ids,
                self.view().dom() == old_view.dom(),
                forall|id: u32| #[trigger] self.view().dom().contains(id) ==> self.view()[id] == (
                    if self.ids@.take(i as int).contains(id) {
                        cancelled_state(old_view[id])
                    } else {
                        old_view[id]
                    }),
            decreases self.ids.len() - i,
        {
            let id = self.ids[i];
            let ghost before = self.view();
            let ghost before_map = self.by_id@;
            let ghost done = self.ids@.take(i as int);
            proof {
                assert(self.ids@.contains(id));
                assert(self.ids@.take(i + 1) =~= done.push(id));
                assert(!done.contains(id)) by {
                    if done.contains(id) {
                        let j = choose|j: int| 0 <= j < done.len() && done[j] == id;
                        assert(self.ids@[j] == self.ids@[i as int]);
                    }
                };
                assert(before.dom().contains(id));
            }
            match self.by_id.remove(&id) {
                Some(info) => {
                    let mut info = info;
                    if !info.finished {
                        info.cancel();
                    }
                    assert(info.state() == cancelled_state(old_view[id]));
                    self.by_id.insert(id, info);
                },
                None => {
                    assert(false);
                },
            }
            proof {
                assert forall|x: u32| #[trigger] self.view().dom().contains(x) implies self.view()[x] == (
                    if self.ids@.take(i + 1).contains(x) {
                        cancelled_state(old_view[x])
                    } else {
                        old_view[x]
                    }) by {
                    assert(before.dom().contains(x));
                    if x != id {
                        assert(self.by_id@[x] == before_map[x]);
                        assert(self.ids@.take(i + 1).contains(x) == done.contains(x));
                    } else {
                        assert(self.ids@.take(i + 1).contains(x)) by {
                            assert(self.ids@.take(i + 1)[i as int] == x);
                        };
                    }
                };
                assert(self.view().dom() =~= old_view.dom());
            }
            i = i + 1;
        }
        proof {
            assert(self.ids@.take(self.ids@.len() as int) =~= self.ids@);
        }
    }
}

/// The state of a request after `cancel_unfinished`: an unfinished request is cancelled.
pub open spec fn cancelled_state<F>(s: RequestState<F>) -> RequestState<F> {
    (s.0 || !s.1, s.1, s.2)
}

/// The unfinished requests counted along a list of their ids are the unfinished
/// requests of the map.
proof fn lemma_unfinished_count<F>(ids: Seq<u32>, m: Map<u32, RequestState<F>>)
    requires
        ids.no_duplicates(),
        m.dom() == ids.to_set(),
    ensures
        unfinished_in(ids, m) == unfinished_ids(m).len(),
    decreases ids.len(),
{
    if ids.len() == 0 {
        assert(unfinished_ids(m) =~= Set::<u32>::empty());
    } else {
        let last = ids.last();
        let rest = ids.drop_last();
        let m2 = m.remove(last);
        assert(rest.no_duplicates());
        assert forall|x: u32| #[trigger] rest.to_set().contains(x) <==> m2.dom().contains(x) by {
            if rest.contains(x) {
                let k = choose|k: int| 0 <= k < rest.len() && rest[k] == x;
                assert(ids[k] == x);
                assert(k != ids.len() - 1);
                assert(ids.contains(x));
            }
            if m2.dom().contains(x) {
                assert(ids.to_set().contains(x));
                let k = choose|k: int| 0 <= k < ids.len() && ids[k] == x;
                assert(k != ids.len() - 1);
                assert(rest[k] == x);
            }
        };
        assert(m2.dom() =~= rest.to_set());
        lemma_unfinished_count(rest, m2);
        assert forall|k: int| 0 <= k < rest.len() implies #[trigger] m2[rest[k]] == m[rest[k]] by {
            assert(rest[k] == ids[k]);
            assert(ids[k] != ids[ids.len() - 1]);
            assert(ids.to_set().contains(ids[k]));
        };
        assert(unfinished_in(rest, m2) == unfinished_in(rest, m)) by {
            lemma_unfinished_in_agrees(rest, m2, m);
        }
        assert(ids.to_set().contains(last)) by {
            assert(ids[ids.len() - 1] == last);
        }
        rest.lemma_cardinality_of_set();
        assert(m.dom().finite());
        if m[last].1 {
            assert(unfinished_ids(m) =~= unfinished_ids(m2));
        } else {
            assert(unfinished_ids(m) =~= unfinished_ids(m2).insert(last));
            assert(!unfinished_ids(m2).contains(last));
        }
    }
}

/// Counting along `ids` reads only the entries of those ids.
proof fn lemma_unfinished_in_agrees<F>(ids: Seq<u32>, a: Map<u32, RequestState<F>>, b: Map<u32, RequestState<F>>)
    requires
        forall|k: int| 0 <= k < ids.len() ==> #[trigger] a[ids[k]] == b[ids[k]],
    ensures
        unfinished_in(ids, a) == unfinished_in(ids, b),
    decreases ids.len(),
{
    if ids.len() > 0 {
        let rest = ids.drop_last();
        assert forall|k: int| 0 <= k < rest.len() implies #[trigger] a[rest[k]] == b[rest[k]] by {
            assert(rest[k] == ids[k]);
        };
        lemma_unfinished_in_agrees(rest, a, b);
        assert(a[ids[ids.len() - 1]] == b[ids[ids.len() - 1]]);
    }
}

/// Results are handed out in the order they arrived, once: a result that arrives
/// waits after the earlier results of its request, and once the results are taken none
/// of them waits any more.
pub proof fn lemma_results_in_arrival_order<F>(m: Map<u32, RequestState<F>>, lr: LoadResult<F>)
    requires
        m.dom().contains(result_req_id(lr)),
    ensures
        arrived(m, lr)[result_req_id(lr)].2 == m[result_req_id(lr)].2.push(lr),
        taken_map(arrived(m, lr), result_req_id(lr)).dom().contains(result_req_id(lr)) ==> taken_map(
            arrived(m, lr),
            result_req_id(lr),
        )[result_req_id(lr)].2.len() == 0,
{
}

} // verus!
