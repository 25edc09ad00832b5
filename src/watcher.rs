use vstd::prelude::*;

verus! {

/// Where a repository's watcher stands.
#[derive(Debug, Clone, Copy, PartialEq, Eq, Structural)]
pub enum WatcherState {
    Created,
    Cloning,
    Ready,
    Refreshing,
    /// The first clone failed: the repository is never served.
    Failed,
    Stopped,
}

/// What the outside world reports to a watcher.
#[derive(Debug, Clone, Copy, PartialEq, Eq, Structural)]
pub enum WatcherEvent {
    Started,
    Cloned,
    CloneFailed,
    Fetched,
    FetchFailed,
    Published,
    Discarded,
    TimerFired,
    Shutdown,
}

/// What a watcher asks the outside world to do next. Mirrors live in directories
/// numbered by generation; a generation is written once, into a directory that
/// no reader can see, and then published as a whole.
#[derive(Debug, Clone, Copy, PartialEq, Eq, Structural)]
pub enum WatcherAction {
    /// Clone the remote into the directory of `generation`.
    Clone { generation: u64 },
    /// Fetch the tracked branch into the directory of `generation`.
    Fetch { generation: u64 },
    /// Make `generation` the mirror that readers see, in one step, then remove `retire`.
    Publish { generation: u64, retire: Option<u64> },
    /// Remove the unfinished directory of `generation`.
    Discard { generation: u64 },
    /// Wait `millis` milliseconds, then report the timer.
    Sleep { millis: u64 },
    /// End the watcher, removing the unfinished directory `discard`.
    Stop { discard: Option<u64> },
    /// The event did not fit the state: nothing to do.
    Stay,
}

/// The clone-and-refresh life of one repository's mirror.
#[derive(Debug, Clone, Copy, PartialEq, Eq, Structural)]
pub struct RepositoryWatcher {
    pub state: WatcherState,
    /// The generation that readers see, if any.
    pub published: Option<u64>,
    /// The generation being written, if any.
    pub staging: Option<u64>,
    /// The first generation never handed out.
    pub next_generation: u64,
    /// Delay between two refreshes, in milliseconds.
    pub refresh_interval: u64,
}

/// `a` is no later than `b`: a published generation is never replaced by an older one, nor withdrawn.
pub open spec fn no_later(a: Option<u64>, b: Option<u64>) -> bool {
    match a {
        None => true,
        Some(x) => b matches Some(y) && x <= y,
    }
}

/// `p` is none or older than `g`.
pub open spec fn older_than(p: Option<u64>, g: u64) -> bool {
    match p {
        None => true,
        Some(x) => x < g,
    }
}

/// The generation whose directory an action writes into.
pub open spec fn writes_into(a: WatcherAction) -> Option<u64> {
    match a {
        WatcherAction::Clone { generation } => Some(generation),
        WatcherAction::Fetch { generation } => Some(generation),
        _ => None,
    }
}

impl RepositoryWatcher {
    pub open spec fn wf(self) -> bool {
        &&& older_than(self.published, self.next_generation)
        &&& match self.staging {
            Some(g) => g < self.next_generation && older_than(self.published, g),
            None => true,
        }
        &&& (self.state == WatcherState::Created) ==> self.staging is None && self.published is None
        &&& (self.state == WatcherState::Cloning) ==> self.staging is Some && self.published is None
        &&& (self.state == WatcherState::Refreshing) ==> self.staging is Some && self.published is Some
        &&& (self.state == WatcherState::Ready) ==> self.staging is None && self.published is Some
        &&& (self.state == WatcherState::Failed) ==> self.staging is None && self.published is None
        &&& (self.state == WatcherState::Stopped) ==> self.staging is None
    }

    /// The watcher after `e`, and what it asks for.
    pub open spec fn step(self, e: WatcherEvent) -> (RepositoryWatcher, WatcherAction) {
        let w = self;
        let g = w.next_generation;
        match (w.state, e) {
            (WatcherState::Failed, _) | (WatcherState::Stopped, _) => (w, WatcherAction::Stop { discard: None }),
            (_, WatcherEvent::Shutdown) => (
                RepositoryWatcher { state: WatcherState::Stopped, staging: None, ..w },
                WatcherAction::Stop { discard: w.staging },
            ),
            (WatcherState::Created, WatcherEvent::Started) => if g < u64::MAX {
                (
                    RepositoryWatcher { state: WatcherState::Cloning, staging: Some(g), next_generation: (g + 1) as u64, ..w },
                    WatcherAction::Clone { generation: g },
                )
            } else {
                (RepositoryWatcher { state: WatcherState::Failed, ..w }, WatcherAction::Stop { discard: None })
            },
            (WatcherState::Cloning, WatcherEvent::Cloned) => (
                RepositoryWatcher { state: WatcherState::Ready, published: w.staging, staging: None, ..w },
                WatcherAction::Publish { generation: w.staging->0, retire: None },
            ),
            (WatcherState::Cloning, WatcherEvent::CloneFailed) => (
                RepositoryWatcher { state: WatcherState::Failed, staging: None, ..w },
                WatcherAction::Stop { discard: w.staging },
            ),
            (WatcherState::Ready, WatcherEvent::Published) | (WatcherState::Ready, WatcherEvent::Discarded) => (
                w,
                WatcherAction::Sleep { millis: w.refresh_interval },
            ),
            (WatcherState::Ready, WatcherEvent::TimerFired) => if g < u64::MAX {
                (
                    RepositoryWatcher { state: WatcherState::Refreshing, staging: Some(g), next_generation: (g + 1) as u64, ..w },
                    WatcherAction::Fetch { generation: g },
                )
            } else {
                (w, WatcherAction::Sleep { millis: w.refresh_interval })
            },
            (WatcherState::Refreshing, WatcherEvent::Fetched) => (
                RepositoryWatcher { state: WatcherState::Ready, published: w.staging, staging: None, ..w },
                WatcherAction::Publish { generation: w.staging->0, retire: w.published },
            ),
            (WatcherState::Refreshing, WatcherEvent::FetchFailed) => (
                RepositoryWatcher { state: WatcherState::Ready, staging: None, ..w },
                WatcherAction::Discard { generation: w.staging->0 },
            ),
            _ => (w, WatcherAction::Stay),
        }
    }
}

/// The watcher after the events `evs`, one after the other.
pub open spec fn run(w: RepositoryWatcher, evs: Seq<WatcherEvent>) -> RepositoryWatcher
    decreases evs.len(),
{
    if evs.len() == 0 {
        w
    } else {
        run(w, evs.drop_last()).step(evs.last()).0
    }
}

/// One step keeps the watcher well formed, never moves the published generation
/// back, writes only into a fresh generation, and publishes only the generation
/// whose writing has just completed.
pub proof fn lemma_step(w: RepositoryWatcher, e: WatcherEvent)
    requires
        w.wf(),
    ensures
        w.step(e).0.wf(),
        no_later(w.published, w.step(e).0.published),
        w.next_generation <= w.step(e).0.next_generation,
        writes_into(w.step(e).1) matches Some(g) ==> g == w.next_generation && w.step(e).0.staging
            == Some(g) && w.step(e).0.next_generation == g + 1,
        w.step(e).1 matches WatcherAction::Publish { generation, .. } ==> w.staging == Some(
            generation,
        ) && (e == WatcherEvent::Cloned || e == WatcherEvent::Fetched),
        w.step(e).0.published != w.published ==> w.step(e).1 is Publish,
{
}

proof fn lemma_run_step(w: RepositoryWatcher, evs: Seq<WatcherEvent>, k: int)
    requires
        0 <= k < evs.len(),
    ensures
        run(w, evs.take(k + 1)) == run(w, evs.take(k)).step(evs[k]).0,
{
    assert(evs.take(k + 1).drop_last() =~= evs.take(k));
}

proof fn lemma_run_monotone(w: RepositoryWatcher, evs: Seq<WatcherEvent>, j: int, k: int)
    requires
        w.wf(),
        0 <= j <= k <= evs.len(),
    ensures
        run(w, evs.take(k)).wf(),
        no_later(run(w, evs.take(j)).published, run(w, evs.take(k)).published),
        run(w, evs.take(j)).next_generation <= run(w, evs.take(k)).next_generation,
    decreases k,
{
    if k == 0 {
        assert(evs.take(0) =~= Seq::<WatcherEvent>::empty());
    } else {
        lemma_run_step(w, evs, k - 1);
        if j == k {
            lemma_run_monotone(w, evs, 0, k - 1);
            lemma_step(run(w, evs.take(k - 1)), evs[k - 1]);
        } else {
            lemma_run_monotone(w, evs, j, k - 1);
            lemma_step(run(w, evs.take(k - 1)), evs[k - 1]);
        }
    }
}

/// Readers only ever see whole snapshots. Along any run of events: the published
/// generation never goes back; every generation written into is newer than all
/// generations published so far, and than all generations written before it, so
/// nothing that a reader may have seen is written again; and a generation is
/// published only once its clone or fetch has completed.
pub proof fn lemma_snapshot_consistency(w: RepositoryWatcher, evs: Seq<WatcherEvent>, j: int, k: int)
    requires
        w.wf(),
        0 <= j <= k < evs.len(),
    ensures
        run(w, evs.take(k)).wf(),
        no_later(run(w, evs.take(j)).published, run(w, evs.take(k)).published),
        writes_into(run(w, evs.take(k)).step(evs[k]).1) matches Some(g) ==> older_than(
            run(w, evs.take(j)).published,
            g,
        ) && older_than(run(w, evs.take(k)).published, g),
        j < k ==> (writes_into(run(w, evs.take(j)).step(evs[j]).1) matches Some(g1) ==> (writes_into(
            run(w, evs.take(k)).step(evs[k]).1,
        ) matches Some(g2) ==> g1 < g2)),
        run(w, evs.take(k)).step(evs[k]).1 matches WatcherAction::Publish { generation, .. } ==> run(
            w,
            evs.take(k),
        ).staging == Some(generation) && (evs[k] == WatcherEvent::Cloned || evs[k]
            == WatcherEvent::Fetched),
        run(w, evs.take(k + 1)).published != run(w, evs.take(k)).published ==> run(
            w,
            evs.take(k),
        ).step(evs[k]).1 is Publish,
{
    lemma_run_monotone(w, evs, j, k);
    lemma_step(run(w, evs.take(k)), evs[k]);
    lemma_run_step(w, evs, k);
    if j < k {
        lemma_run_monotone(w, evs, j, j);
        lemma_step(run(w, evs.take(j)), evs[j]);
        lemma_run_step(w, evs, j);
        lemma_run_monotone(w, evs, j + 1, k);
    }
}

/// A watcher whose first clone failed never publishes anything, whatever happens next.
pub proof fn lemma_failed_stays_unserved(w: RepositoryWatcher, evs: Seq<WatcherEvent>)
    requires
        w.state == WatcherState::Failed,
        w.published is None,
    ensures
        run(w, evs).state == WatcherState::Failed,
        run(w, evs).published is None,
    decreases evs.len(),
{
    if evs.len() > 0 {
        lemma_failed_stays_unserved(w, evs.drop_last());
    }
}

/// Running `evs` is running its first `k` events, then the rest.
pub proof fn lemma_run_split(w: RepositoryWatcher, evs: Seq<WatcherEvent>, k: int)
    requires
        0 <= k <= evs.len(),
    ensures
        run(w, evs) == run(run(w, evs.take(k)), evs.skip(k)),
    decreases evs.len(),
{
    if evs.len() == k {
        assert(evs.take(k) =~= evs);
        assert(evs.skip(k) =~= Seq::<WatcherEvent>::empty());
    } else {
        let init = evs.drop_last();
        lemma_run_split(w, init, k);
        assert(init.take(k) =~= evs.take(k));
        assert(init.skip(k) =~= evs.skip(k).drop_last());
        assert(evs.skip(k).last() == evs.last());
    }
}

/// A failed clone stays within its repository. Of two repositories whose watchers
/// start fresh, the one whose first clone fails never publishes a mirror, whatever
/// happens to it next, while the one whose first clone succeeds keeps a published
/// mirror, whatever happens to it next.
pub proof fn lemma_failure_isolated(
    failed: RepositoryWatcher,
    failed_events: Seq<WatcherEvent>,
    healthy: RepositoryWatcher,
    healthy_events: Seq<WatcherEvent>,
)
    requires
        failed.wf(),
        failed.state == WatcherState::Created,
        failed_events.len() >= 2,
        failed_events[0] == WatcherEvent::Started,
        failed_events[1] == WatcherEvent::CloneFailed,
        healthy.wf(),
        healthy.state == WatcherState::Created,
        healthy.next_generation < u64::MAX,
        healthy_events.len() >= 2,
        healthy_events[0] == WatcherEvent::Started,
        healthy_events[1] == WatcherEvent::Cloned,
    ensures
        run(failed, failed_events).published is None,
        run(healthy, healthy_events).published is Some,
{
    assert(failed_events.take(0) =~= Seq::<WatcherEvent>::empty());
    lemma_run_step(failed, failed_events, 0);
    lemma_run_step(failed, failed_events, 1);
    let after = run(failed, failed_events.take(2));
    assert(after.state == WatcherState::Failed && after.published is None);
    lemma_run_split(failed, failed_events, 2);
    lemma_failed_stays_unserved(after, failed_events.skip(2));
    assert(healthy_events.take(0) =~= Seq::<WatcherEvent>::empty());
    lemma_run_step(healthy, healthy_events, 0);
    lemma_run_step(healthy, healthy_events, 1);
    assert(run(healthy, healthy_events.take(2)).published is Some);
    lemma_run_monotone(healthy, healthy_events, 2, healthy_events.len() as int);
    assert(healthy_events.take(healthy_events.len() as int) =~= healthy_events);
}

impl RepositoryWatcher {
    /// A watcher that has not started, refreshing every `refresh_interval` milliseconds.
    pub fn new(refresh_interval: u64) -> (r: Self)
        ensures
            r.wf(),
            r.state == WatcherState::Created,
            r.published is None,
            r.staging is None,
            r.next_generation == 0,
            r.refresh_interval == refresh_interval,
    {
        RepositoryWatcher {
            state: WatcherState::Created,
            published: None,
            staging: None,
            next_generation: 0,
            refresh_interval,
        }
    }

    /// Takes in what happened and says what to do next.
    pub fn on_event(&mut self, e: WatcherEvent) -> (r: WatcherAction)
        requires
            old(self).wf(),
        ensures
            (*final(self), r) == old(self).step(e),
            final(self).wf(),
    {
        proof {
            lemma_step(*self, e);
        }
        let g = self.next_generation;
        match (self.state, e) {
            (WatcherState::Failed, _) | (WatcherState::Stopped, _) => WatcherAction::Stop {
                discard: None,
            },
            (_, WatcherEvent::Shutdown) => {
                let discard = self.staging;
                self.state = WatcherState::Stopped;
                self.staging = None;
                WatcherAction::Stop { discard }
            },
            (WatcherState::Created, WatcherEvent::Started) => {
                if g < u64::MAX {
                    self.state = WatcherState::Cloning;
                    self.staging = Some(g);
                    self.next_generation = g + 1;
                    WatcherAction::Clone { generation: g }
                } else {
                    self.state = WatcherState::Failed;
                    WatcherAction::Stop { discard: None }
                }
            },
            (WatcherState::Cloning, WatcherEvent::Cloned) => {
                let staged = self.staging;
                self.state = WatcherState::Ready;
                self.published = staged;
                self.staging = None;
                match staged {
                    Some(s) => WatcherAction::Publish { generation: s, retire: None },
                    None => WatcherAction::Publish { generation: 0, retire: None },
                }
            },
            (WatcherState::Cloning, WatcherEvent::CloneFailed) => {
                let discard = self.staging;
                self.state = WatcherState::Failed;
                self.staging = None;
                WatcherAction::Stop { discard }
            },
            (WatcherState::Ready, WatcherEvent::Published)
            | (WatcherState::Ready, WatcherEvent::Discarded) => WatcherAction::Sleep {
                millis: self.refresh_interval,
            },
            (WatcherState::Ready, WatcherEvent::TimerFired) => {
                if g < u64::MAX {
                    self.state = WatcherState::Refreshing;
                    self.staging = Some(g);
                    self.next_generation = g + 1;
                    WatcherAction::Fetch { generation: g }
                } else {
                    WatcherAction::Sleep { millis: self.refresh_interval }
                }
            },
            (WatcherState::Refreshing, WatcherEvent::Fetched) => {
                let staged = self.staging;
                let retire = self.published;
                self.state = WatcherState::Ready;
                self.published = staged;
                self.staging = None;
                match staged {
                    Some(s) => WatcherAction::Publish { generation: s, retire },
                    None => WatcherAction::Publish { generation: 0, retire },
                }
            },
            (WatcherState::Refreshing, WatcherEvent::FetchFailed) => {
                let staged = self.staging;
                self.state = WatcherState::Ready;
                self.staging = None;
                match staged {
                    Some(s) => WatcherAction::Discard { generation: s },
                    None => WatcherAction::Discard { generation: 0 },
                }
            },
            _ => WatcherAction::Stay,
        }
    }
}

} // verus!
