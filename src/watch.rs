use vstd::prelude::*;

use crate::types::{
    CollectionDesc, CollectionView, DatabaseDesc, DatabaseView, GroupDesc,
    GroupState, GroupStateView, GroupView, NodeDesc, NodeView,
};

verus! {

/// A descriptor that was created or changed.
#[derive(Debug)]
pub enum UpdateEvent {
    Node(NodeDesc),
    Group(GroupDesc),
    GroupState(GroupState),
    Database(DatabaseDesc),
    Collection(CollectionDesc),
}

pub enum UpdateView {
    Node(NodeView),
    Group(GroupView),
    GroupState(GroupStateView),
    Database(DatabaseView),
    Collection(CollectionView),
}

impl View for UpdateEvent {
    type V = UpdateView;

    open spec fn view(&self) -> UpdateView {
        match self {
            UpdateEvent::Node(d) => UpdateView::Node(d@),
            UpdateEvent::Group(d) => UpdateView::Group(d@),
            UpdateEvent::GroupState(d) => UpdateView::GroupState(d@),
            UpdateEvent::Database(d) => UpdateView::Database(d@),
            UpdateEvent::Collection(d) => UpdateView::Collection(d@),
        }
    }
}

impl Clone for GroupState {
    fn clone(&self) -> (r: Self)
        ensures
            r@ == self@,
    {
        let mut replicas = Vec::new();
        let mut i: usize = 0;
        while i < self.replicas.len()
            invariant
                i <= self.replicas.len(),
                replicas@ == self.replicas@.subrange(0, i as int),
            decreases self.replicas.len() - i,
        {
            replicas.push(self.replicas[i]);
            i = i + 1;
            assert(replicas@ =~= self.replicas@.subrange(0, i as int));
        }
        assert(replicas@ =~= self.replicas@);
        GroupState { group_id: self.group_id, replicas }
    }
}

impl Clone for UpdateEvent {
    fn clone(&self) -> (r: Self)
        ensures
            r@ == self@,
    {
        match self {
            UpdateEvent::Node(d) => UpdateEvent::Node(d.clone()),
            UpdateEvent::Group(d) => UpdateEvent::Group(d.clone()),
            UpdateEvent::GroupState(d) => UpdateEvent::GroupState(d.clone()),
            UpdateEvent::Database(d) => UpdateEvent::Database(d.clone()),
            UpdateEvent::Collection(d) => UpdateEvent::Collection(d.clone()),
        }
    }
}

/// A descriptor that was removed, named by its id.
#[derive(Clone, Copy, Debug, PartialEq, Eq, Structural)]
pub enum DeleteEvent {
    Node(u64),
    Group(u64),
    GroupState(u64),
    Database(u64),
    Collection(u64),
}

/// One delivery to a watcher: a batch of updates and a batch of deletes.
#[derive(Debug)]
pub struct WatchResponse {
    pub updates: Vec<UpdateEvent>,
    pub deletes: Vec<DeleteEvent>,
}

pub struct ResponseView {
    pub updates: Seq<UpdateView>,
    pub deletes: Seq<DeleteEvent>,
}

pub open spec fn update_views(s: Seq<UpdateEvent>) -> Seq<UpdateView> {
    s.map_values(|e: UpdateEvent| e@)
}

impl View for WatchResponse {
    type V = ResponseView;

    open spec fn view(&self) -> ResponseView {
        ResponseView { updates: update_views(self.updates@), deletes: self.deletes@ }
    }
}

pub fn copy_updates(s: &Vec<UpdateEvent>) -> (r: Vec<UpdateEvent>)
    ensures
        update_views(r@) == update_views(s@),
{
    let mut r: Vec<UpdateEvent> = Vec::new();
    let mut i: usize = 0;
    while i < s.len()
        invariant
            i <= s.len(),
            r@.len() == i,
            forall|j: int| 0 <= j < i ==> (#[trigger] r@[j])@ == s@[j]@,
        decreases s.len() - i,
    {
        let c = s[i].clone();
        r.push(c);
        i = i + 1;
    }
    assert(update_views(r@) =~= update_views(s@));
    r
}

fn copy_deletes(s: &Vec<DeleteEvent>) -> (r: Vec<DeleteEvent>)
    ensures
        r@ == s@,
{
    let mut r: Vec<DeleteEvent> = Vec::new();
    let mut i: usize = 0;
    while i < s.len()
        invariant
            i <= s.len(),
            r@ == s@.subrange(0, i as int),
        decreases s.len() - i,
    {
        r.push(s[i]);
        i = i + 1;
        assert(r@ =~= s@.subrange(0, i as int));
    }
    assert(r@ =~= s@);
    r
}

impl Clone for WatchResponse {
    fn clone(&self) -> (r: Self)
        ensures
            r@ == self@,
    {
        WatchResponse { updates: copy_updates(&self.updates), deletes: copy_deletes(&self.deletes) }
    }
}

/// What a registered watcher has still to receive: its snapshot, if one was set and is
/// not yet taken, then the broadcasts since it registered.
pub struct WatcherView {
    pub init: Option<ResponseView>,
    pub live: Seq<ResponseView>,
}

/// The responses a watcher will receive, in order.
pub open spec fn stream(w: WatcherView) -> Seq<ResponseView> {
    match w.init {
        Some(r) => seq![r].add(w.live),
        None => w.live,
    }
}

/// The hub after one more watcher registered: it has received nothing yet.
pub open spec fn registered(h: Seq<WatcherView>) -> Seq<WatcherView> {
    h.push(WatcherView { init: None, live: Seq::empty() })
}

/// The hub after watcher `id` was given its snapshot.
pub open spec fn initialized(h: Seq<WatcherView>, id: int, snap: ResponseView) -> Seq<WatcherView> {
    h.update(id, WatcherView { init: Some(snap), live: h[id].live })
}

/// The hub after `r` was broadcast: every registered watcher has it queued once, last.
pub open spec fn broadcast(h: Seq<WatcherView>, r: ResponseView) -> Seq<WatcherView> {
    Seq::new(h.len(), |i: int| WatcherView { init: h[i].init, live: h[i].live.push(r) })
}

struct WatchQueue {
    init: Option<WatchResponse>,
    live: Vec<WatchResponse>,
}

spec fn opt_view(o: Option<WatchResponse>) -> Option<ResponseView> {
    match o {
        Some(r) => Some(r@),
        None => None,
    }
}

spec fn queue_view(q: WatchQueue) -> WatcherView {
    WatcherView { init: opt_view(q.init), live: q.live@.map_values(|r: WatchResponse| r@) }
}

/// A registered subscriber; it drains its responses through the hub.
pub struct Watcher {
    id: usize,
}

impl Watcher {
    pub closed spec fn id(&self) -> int {
        self.id as int
    }
}

/// The one-time handle that supplies a new watcher's snapshot.
pub struct WatcherInitializer {
    id: usize,
}

impl WatcherInitializer {
    pub closed spec fn id(&self) -> int {
        self.id as int
    }

    /// Sets the watcher's snapshot; it is delivered before any broadcast.
    pub fn set_init_resp(
        self,
        hub: &mut WatchHub,
        updates: Vec<UpdateEvent>,
        deletes: Vec<DeleteEvent>,
    )
        requires
            self.id() < old(hub)@.len(),
        ensures
            final(hub)@ == initialized(
                old(hub)@,
                self.id(),
                ResponseView { updates: update_views(updates@), deletes: deletes@ },
            ),
    {
        let resp = WatchResponse { updates, deletes };
        let ghost rv = resp@;
        let mut q = WatchQueue { init: None, live: Vec::new() };
        std::mem::swap(&mut q, &mut hub.queues[self.id]);
        q.init = Some(resp);
        std::mem::swap(&mut q, &mut hub.queues[self.id]);
        assert(hub@ =~= initialized(old(hub)@, self.id(), rv));
    }
}

/// Registers watchers and fans broadcasts out to all of them in the order they are made.
pub struct WatchHub {
    queues: Vec<WatchQueue>,
}

impl View for WatchHub {
    type V = Seq<WatcherView>;

    closed spec fn view(&self) -> Seq<WatcherView> {
        self.queues@.map_values(|q: WatchQueue| queue_view(q))
    }
}

impl WatchHub {
    pub fn new() -> (r: WatchHub)
        ensures
            r@ == Seq::<WatcherView>::empty(),
    {
        let r = WatchHub { queues: Vec::new() };
        assert(r@ =~= Seq::<WatcherView>::empty());
        r
    }

    /// Registers a watcher, which receives only what is broadcast from now on, after the
    /// snapshot that its initializer sets.
    pub fn create_watcher(&mut self) -> (r: (Watcher, WatcherInitializer))
        ensures
            final(self)@ == registered(old(self)@),
            r.0.id() == old(self)@.len(),
            r.1.id() == old(self)@.len(),
    {
        let id = self.queues.len();
        self.queues.push(WatchQueue { init: None, live: Vec::new() });
        assert(queue_view(self.queues@[id as int]).live =~= Seq::<ResponseView>::empty());
        assert(self@ =~= registered(old(self)@));
        (Watcher { id }, WatcherInitializer { id })
    }

    fn broadcast_response(&mut self, resp: WatchResponse)
        ensures
            final(self)@ == broadcast(old(self)@, resp@),
    {
        let mut i: usize = 0;
        while i < self.queues.len()
            invariant
                i <= self.queues.len(),
                self.queues.len() == old(self).queues.len(),
                forall|j: int|
                    0 <= j < i ==> queue_view(#[trigger] self.queues@[j]) == broadcast(
                        old(self)@,
                        resp@,
                    )[j],
                forall|j: int| i <= j < self.queues.len() ==> #[trigger] self.queues@[j] == old(self).queues@[j],
            decreases self.queues.len() - i,
        {
            let c = resp.clone();
            let mut q = WatchQueue { init: None, live: Vec::new() };
            std::mem::swap(&mut q, &mut self.queues[i]);
            let ghost before = q.live@;
            q.live.push(c);
            assert(q.live@.map_values(|r: WatchResponse| r@) =~= before.map_values(
                |r: WatchResponse| r@,
            ).push(resp@));
            std::mem::swap(&mut q, &mut self.queues[i]);
            i = i + 1;
        }
        assert(self@ =~= broadcast(old(self)@, resp@));
    }

    /// Broadcasts a batch of updates to every registered watcher.
    pub fn notify_updates(&mut self, events: Vec<UpdateEvent>)
        ensures
            final(self)@ == broadcast(
                old(self)@,
                ResponseView { updates: update_views(events@), deletes: Seq::empty() },
            ),
    {
        let resp = WatchResponse { updates: events, deletes: Vec::new() };
        self.broadcast_response(resp);
    }

    /// Broadcasts a batch of deletes to every registered watcher.
    pub fn notify_deletes(&mut self, events: Vec<DeleteEvent>)
        ensures
            final(self)@ == broadcast(
                old(self)@,
                ResponseView { updates: Seq::empty(), deletes: events@ },
            ),
    {
        let resp = WatchResponse { updates: Vec::new(), deletes: events };
        assert(update_views(resp.updates@) =~= Seq::empty());
        self.broadcast_response(resp);
    }

    /// Takes the watcher's next response: its snapshot first, then the broadcasts in the
    /// order they were made; `None` while nothing is waiting.
    pub fn next(&mut self, w: &Watcher) -> (r: Option<WatchResponse>)
        requires
            w.id() < old(self)@.len(),
        ensures
            final(self)@.len() == old(self)@.len(),
            forall|j: int| 0 <= j < old(self)@.len() && j != w.id() ==> final(self)@[j] == old(self)@[j],
            stream(old(self)@[w.id()]).len() == 0 ==> r.is_none() && final(self)@ == old(self)@,
            stream(old(self)@[w.id()]).len() > 0 ==> r.is_some() && r.unwrap()@ == stream(
                old(self)@[w.id()],
            )[0] && stream(final(self)@[w.id()]) == stream(old(self)@[w.id()]).drop_first(),
    {
        let mut q = WatchQueue { init: None, live: Vec::new() };
        std::mem::swap(&mut q, &mut self.queues[w.id]);
        let ghost qv = queue_view(q);
        let r = if q.init.is_some() {
            let taken = q.init.take();
            assert(queue_view(q).live == qv.live);
            assert(stream(queue_view(q)) =~= stream(qv).drop_first());
            taken
        } else if q.live.len() > 0 {
            let first = q.live.remove(0);
            assert(queue_view(q).live =~= qv.live.drop_first());
            Some(first)
        } else {
            None
        };
        std::mem::swap(&mut q, &mut self.queues[w.id]);
        proof {
            if stream(qv).len() == 0 {
                assert(self@ =~= old(self)@);
            }
        }
        r
    }
}

/// A watcher registered before a broadcast receives it exactly once, after everything it
/// had still to receive; a watcher registered after the broadcast never receives it live:
/// its stream is exactly the snapshot it is given.
pub proof fn lemma_snapshot_consistency(
    h: Seq<WatcherView>,
    w: int,
    e: ResponseView,
    snap: ResponseView,
)
    requires
        0 <= w < h.len(),
    ensures
        stream(broadcast(h, e)[w]) == stream(h[w]).push(e),
        stream(
            initialized(registered(broadcast(h, e)), h.len() as int, snap)[h.len() as int],
        ) == seq![snap],
{
    let b = broadcast(h, e);
    assert(b[w].live == h[w].live.push(e));
    match h[w].init {
        Some(r) => {
            assert(seq![r].add(h[w].live.push(e)) =~= seq![r].add(h[w].live).push(e));
        },
        None => {},
    }
    let g = initialized(registered(b), h.len() as int, snap);
    assert(g[h.len() as int].live =~= Seq::<ResponseView>::empty());
    assert(seq![snap].add(Seq::<ResponseView>::empty()) =~= seq![snap]);
}

} // verus!
