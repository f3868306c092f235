use vstd::prelude::*;

verus! {

/// One live subscriber: the payload that was cached when it subscribed, until taken,
/// and the payloads published for it since then and not yet taken.
struct Subscriber {
    id: u64,
    first: Option<String>,
    queue: Vec<String>,
}

/// Keeps the latest payload and, per subscriber, the cached payload it is owed first
/// and a bounded queue of later payloads. A subscriber that falls more than
/// `capacity` later payloads behind loses the oldest of them, never the order and
/// never its first payload; publishing never waits on a subscriber.
pub struct Hub {
    cache: Option<String>,
    subs: Vec<Subscriber>,
    next_id: u64,
    capacity: usize,
}

pub struct SubView {
    pub id: u64,
    /// The payload cached at subscription, not taken yet.
    pub first: Option<Seq<char>>,
    /// Payloads published since subscription and not taken yet, oldest first.
    pub queue: Seq<Seq<char>>,
}

pub struct HubView {
    pub cache: Option<Seq<char>>,
    pub subs: Seq<SubView>,
    pub next_id: u64,
    pub capacity: nat,
}

pub open spec fn opt_text(o: Option<String>) -> Option<Seq<char>> {
    match o {
        Some(s) => Some(s@),
        None => None,
    }
}

spec fn sub_model(s: Subscriber) -> SubView {
    SubView { id: s.id, first: opt_text(s.first), queue: s.queue@.map_values(|t: String| t@) }
}

pub open spec fn hub_wf(h: HubView) -> bool {
    &&& h.capacity >= 1
    &&& forall|i: int| 0 <= i < h.subs.len() ==> (#[trigger] h.subs[i]).queue.len() <= h.capacity
    &&& forall|i: int| 0 <= i < h.subs.len() ==> (#[trigger] h.subs[i]).id < h.next_id
    &&& forall|i: int, j: int| 0 <= i < j < h.subs.len() ==> (#[trigger] h.subs[i]).id != (#[trigger] h.subs[j]).id
}

/// `q` with `v` appended, its oldest entry dropped when it would exceed `cap`.
pub open spec fn bounded_push(q: Seq<Seq<char>>, v: Seq<char>, cap: nat) -> Seq<Seq<char>> {
    if q.len() + 1 > cap { q.push(v).drop_first() } else { q.push(v) }
}

/// The hub after publishing `v`.
pub open spec fn publish_spec(h: HubView, v: Seq<char>) -> HubView {
    HubView {
        cache: Some(v),
        subs: h.subs.map_values(|s: SubView| SubView { queue: bounded_push(s.queue, v, h.capacity), ..s }),
        ..h
    }
}

/// The hub after publishing each of `vs`, in order.
pub open spec fn publish_all(h: HubView, vs: Seq<Seq<char>>) -> HubView
    decreases vs.len(),
{
    if vs.len() == 0 {
        h
    } else {
        publish_spec(publish_all(h, vs.drop_last()), vs.last())
    }
}

/// The hub after a new subscription, which gets the id `h.next_id` and is owed the
/// cached payload first.
pub open spec fn subscribe_spec(h: HubView) -> HubView {
    HubView {
        subs: h.subs.push(SubView { id: h.next_id, first: h.cache, queue: Seq::empty() }),
        next_id: (h.next_id + 1) as u64,
        ..h
    }
}

/// The index of subscriber `id`, or -1.
pub open spec fn sub_position(subs: Seq<SubView>, id: u64) -> int
    decreases subs.len(),
{
    if subs.len() == 0 {
        -1
    } else if subs.last().id == id {
        subs.len() - 1
    } else {
        sub_position(subs.drop_last(), id)
    }
}

/// Taking the next payload of subscriber `id`: the hub after, and the payload. The
/// first payload comes before the queue.
pub open spec fn take_next_spec(h: HubView, id: u64) -> (HubView, Option<Seq<char>>) {
    let p = sub_position(h.subs, id);
    if p < 0 {
        (h, None)
    } else {
        let s = h.subs[p];
        match s.first {
            Some(f) => (HubView { subs: h.subs.update(p, SubView { first: None, ..s }), ..h }, Some(f)),
            None => if s.queue.len() > 0 {
                (HubView { subs: h.subs.update(p, SubView { queue: s.queue.drop_first(), ..s }), ..h }, Some(s.queue[0]))
            } else {
                (h, None)
            },
        }
    }
}

/// The hub after subscriber `id` leaves.
pub open spec fn unsubscribe_spec(h: HubView, id: u64) -> HubView {
    let p = sub_position(h.subs, id);
    if p >= 0 {
        HubView { subs: h.subs.remove(p), ..h }
    } else {
        h
    }
}

proof fn lemma_sub_position(subs: Seq<SubView>, id: u64)
    ensures
        -1 <= sub_position(subs, id) < subs.len(),
        sub_position(subs, id) >= 0 ==> subs[sub_position(subs, id)].id == id,
        sub_position(subs, id) == -1 ==> forall|i: int| 0 <= i < subs.len() ==> #[trigger] subs[i].id != id,
    decreases subs.len(),
{
    if subs.len() > 0 {
        lemma_sub_position(subs.drop_last(), id);
        if subs.last().id != id {
            assert forall|i: int| 0 <= i < subs.len() - 1 implies #[trigger] subs[i] == subs.drop_last()[i] by {}
        }
    }
}

impl View for Hub {
    type V = HubView;

    closed spec fn view(&self) -> HubView {
        HubView {
            cache: opt_text(self.cache),
            subs: self.subs@.map_values(|s: Subscriber| sub_model(s)),
            next_id: self.next_id,
            capacity: self.capacity as nat,
        }
    }
}

fn clone_text(o: &Option<String>) -> (r: Option<String>)
    ensures
        opt_text(r) == opt_text(*o),
{
    match o {
        Some(s) => Some(s.clone()),
        None => None,
    }
}

impl Hub {
    /// An empty hub whose subscribers each hold at most `capacity` later payloads.
    pub fn new(capacity: usize) -> (r: Hub)
        requires
            capacity >= 1,
        ensures
            r@ == (HubView { cache: None, subs: Seq::empty(), next_id: 0, capacity: capacity as nat }),
            hub_wf(r@),
    {
        let r = Hub { cache: None, subs: Vec::new(), next_id: 0, capacity };
        assert(r@.subs =~= Seq::<SubView>::empty());
        r
    }

    /// The latest payload, if one was published.
    pub fn cached(&self) -> (r: Option<String>)
        ensures
            opt_text(r) == self@.cache,
    {
        clone_text(&self.cache)
    }

    /// Caches `text` as the latest payload and queues it for every subscriber.
    pub fn publish(&mut self, text: String)
        requires
            hub_wf(old(self)@),
        ensures
            final(self)@ == publish_spec(old(self)@, text@),
            hub_wf(final(self)@),
    {
        let ghost h = self@;
        let mut i: usize = 0;
        while i < self.subs.len()
            invariant
                self.capacity == h.capacity,
                self.next_id == h.next_id,
                self.cache == old(self).cache,
                h == old(self)@,
                self.subs.len() == h.subs.len(),
                hub_wf(h),
                i <= self.subs.len(),
                forall|k: int| 0 <= k < i ==> sub_model(#[trigger] self.subs@[k]) == (SubView {
                    queue: bounded_push(h.subs[k].queue, text@, h.capacity),
                    ..h.subs[k]
                }),
                forall|k: int| i <= k < self.subs.len() ==> sub_model(#[trigger] self.subs@[k]) == h.subs[k],
            decreases h.subs.len() - i,
        {
            assert(sub_model(self.subs@[i as int]) == h.subs[i as int]);
            let ghost q = self.subs@[i as int].queue@.map_values(|t: String| t@);
            self.subs[i].queue.push(text.clone());
            assert(self.subs@[i as int].queue@.map_values(|t: String| t@) =~= q.push(text@));
            if self.subs[i].queue.len() > self.capacity {
                self.subs[i].queue.remove(0);
                assert(self.subs@[i as int].queue@.map_values(|t: String| t@) =~= q.push(text@).drop_first());
            }
            i = i + 1;
        }
        self.cache = Some(text);
        assert(self@.subs =~= publish_spec(h, text@).subs);
    }

    /// Registers a new subscriber and returns its id. Its first payload is the one
    /// cached now, if any, whatever is published before it is taken; then the
    /// payloads published after this call. Returns `None`, changing nothing, once
    /// every id has been handed out.
    pub fn subscribe(&mut self) -> (r: Option<u64>)
        requires
            hub_wf(old(self)@),
        ensures
            old(self)@.next_id < u64::MAX ==> r == Some(old(self)@.next_id) && final(self)@
                == subscribe_spec(old(self)@),
            old(self)@.next_id == u64::MAX ==> r is None && final(self)@ == old(self)@,
            hub_wf(final(self)@),
    {
        if self.next_id == u64::MAX {
            return None;
        }
        let id = self.next_id;
        let first = clone_text(&self.cache);
        let queue: Vec<String> = Vec::new();
        let ghost h = self@;
        assert(sub_model(Subscriber { id, first, queue }) == (SubView {
            id,
            first: h.cache,
            queue: Seq::empty(),
        })) by {
            assert(queue@.map_values(|t: String| t@) =~= Seq::<Seq<char>>::empty());
        }
        self.subs.push(Subscriber { id, first, queue });
        self.next_id = id + 1;
        assert(self@.subs =~= subscribe_spec(h).subs);
        Some(id)
    }

    fn find(&self, id: u64) -> (r: Option<usize>)
        ensures
            match r {
                Some(p) => p as int == sub_position(self@.subs, id),
                None => sub_position(self@.subs, id) == -1,
            },
    {
        let ghost s = self@.subs;
        let mut j: usize = self.subs.len();
        assert(s.take(j as int) =~= s);
        while j > 0
            invariant
                j <= self.subs.len(),
                s == self@.subs,
                sub_position(s.take(j as int), id) == sub_position(s, id),
            decreases j,
        {
            assert(s.take(j as int).drop_last() =~= s.take(j - 1));
            assert(s.take(j as int).last() == s[j - 1]);
            assert(s[j - 1].id == self.subs@[j - 1].id);
            if self.subs[j - 1].id == id {
                return Some(j - 1);
            }
            j = j - 1;
        }
        assert(s.take(0) =~= Seq::<SubView>::empty());
        None
    }

    /// Takes the next payload of subscriber `id`: the one it is owed first, else the
    /// oldest queued one, if any.
    pub fn next(&mut self, id: u64) -> (r: Option<String>)
        requires
            hub_wf(old(self)@),
        ensures
            (final(self)@, opt_text(r)) == take_next_spec(old(self)@, id),
            hub_wf(final(self)@),
    {
        let ghost h = self@;
        proof {
            lemma_sub_position(h.subs, id);
        }
        match self.find(id) {
            Some(p) => {
                let ghost s = h.subs[p as int];
                if self.subs[p].first.is_some() {
                    let mut slot: Option<String> = None;
                    std::mem::swap(&mut slot, &mut self.subs[p].first);
                    assert(self@.subs =~= h.subs.update(p as int, SubView { first: None, ..s }));
                    return slot;
                }
                if self.subs[p].queue.len() == 0 {
                    return None;
                }
                let ghost q = self.subs@[p as int].queue@;
                let t = self.subs[p].queue.remove(0);
                assert(self.subs@[p as int].queue@.map_values(|t: String| t@) =~= q.map_values(|t: String| t@).drop_first());
                assert(self@.subs =~= h.subs.update(p as int, SubView { queue: s.queue.drop_first(), ..s }));
                Some(t)
            },
            None => None,
        }
    }

    /// Removes subscriber `id` and what was pending for it.
    pub fn unsubscribe(&mut self, id: u64)
        requires
            hub_wf(old(self)@),
        ensures
            final(self)@ == unsubscribe_spec(old(self)@, id),
            hub_wf(final(self)@),
    {
        let ghost h = self@;
        proof {
            lemma_sub_position(h.subs, id);
        }
        match self.find(id) {
            Some(p) => {
                self.subs.remove(p);
                assert(self@.subs =~= h.subs.remove(p as int));
            },
            None => {},
        }
    }
}

proof fn lemma_publish_all_keeps_subscribers(h: HubView, vs: Seq<Seq<char>>)
    ensures
        publish_all(h, vs).subs.len() == h.subs.len(),
        publish_all(h, vs).capacity == h.capacity,
        forall|i: int| 0 <= i < h.subs.len() ==> (#[trigger] publish_all(h, vs).subs[i]).id == h.subs[i].id
            && publish_all(h, vs).subs[i].first == h.subs[i].first,
    decreases vs.len(),
{
    if vs.len() > 0 {
        lemma_publish_all_keeps_subscribers(h, vs.drop_last());
        let g = publish_all(h, vs.drop_last());
        assert forall|i: int| 0 <= i < h.subs.len() implies (#[trigger] publish_all(h, vs).subs[i]).id
            == h.subs[i].id && publish_all(h, vs).subs[i].first == h.subs[i].first by {
            assert(publish_all(h, vs).subs[i] == publish_spec(g, vs.last()).subs[i]);
            assert(g.subs[i].id == h.subs[i].id);
        }
    }
}

/// A subscriber that subscribes while a payload `c` is cached takes `c` as its first
/// message, whatever is published between the subscription and that take.
pub proof fn lemma_cached_payload_comes_first(h: HubView, c: Seq<char>, vs: Seq<Seq<char>>)
    requires
        hub_wf(h),
        h.cache == Some(c),
        h.next_id < u64::MAX,
    ensures
        take_next_spec(publish_all(subscribe_spec(h), vs), h.next_id).1 == Some(c),
{
    let s = subscribe_spec(h);
    let after = publish_all(s, vs);
    lemma_publish_all_keeps_subscribers(s, vs);
    let last = s.subs.len() - 1;
    assert(after.subs[last].id == h.next_id);
    assert(after.subs.last() == after.subs[last]);
    assert(sub_position(after.subs, h.next_id) == last);
    assert(after.subs[last].first == Some(c));
}

/// A subscription made after a publish completes receives the published payload
/// as its first message, whatever is published after it.
pub proof fn lemma_subscribe_after_publish(h: HubView, v: Seq<char>, later: Seq<Seq<char>>)
    requires
        hub_wf(h),
        h.next_id < u64::MAX,
    ensures
        take_next_spec(publish_all(subscribe_spec(publish_spec(h, v)), later), h.next_id).1 == Some(v),
{
    let p = publish_spec(h, v);
    assert(hub_wf(p));
    lemma_cached_payload_comes_first(p, v, later);
}

} // verus!
