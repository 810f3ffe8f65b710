//! The download queue of a whole run: files wait in the order their
//! catalogue delivered them, start while fewer than the limit run, and are
//! counted per target as they finish.

use vstd::prelude::*;
use crate::download::{
    request_view, spec_capacity, spec_to_start, downloads_to_start, DownloadTarget,
    FileRequest,
};
use crate::report::{prepare_message, progress_message, spec_prepare, spec_progress};

verus! {

/// The files of one target as values: how many were queued in all, how many
/// are under way, how many have finished.
pub struct TallyView {
    pub total: nat,
    pub running: nat,
    pub done: nat,
}

/// A queued file as values: its target and its request.
pub type QueuedView = (DownloadTarget, (Seq<char>, Seq<char>, Seq<char>));

/// The queue of a run as values.
pub struct SchedulerView {
    pub waiting: Seq<QueuedView>,
    pub limit: nat,
    pub textures: TallyView,
    pub skybox: TallyView,
}

/// The tally of one target.
pub open spec fn tally(v: SchedulerView, target: DownloadTarget) -> TallyView {
    match target {
        DownloadTarget::Textures => v.textures,
        DownloadTarget::Skybox => v.skybox,
    }
}

/// How many files are under way, all targets together.
pub open spec fn running_total(v: SchedulerView) -> nat {
    v.textures.running + v.skybox.running
}

/// How many of the queued files belong to `target`.
pub open spec fn count_of(waiting: Seq<QueuedView>, target: DownloadTarget) -> nat
    decreases waiting.len(),
{
    if waiting.len() == 0 {
        0
    } else {
        count_of(waiting.drop_last(), target) + if waiting.last().0 == target {
            1nat
        } else {
            0nat
        }
    }
}

/// The queue is sound: no more files run than the limit allows (one when the
/// limit is 0), and for each target every file queued is waiting, under way
/// or finished, exactly once.
pub open spec fn spec_wf(v: SchedulerView) -> bool {
    &&& running_total(v) <= spec_capacity(v.limit)
    &&& count_of(v.waiting, DownloadTarget::Textures) + v.textures.running + v.textures.done
        == v.textures.total
    &&& count_of(v.waiting, DownloadTarget::Skybox) + v.skybox.running + v.skybox.done
        == v.skybox.total
}

/// Files queued for `target` as values.
pub open spec fn queued(target: DownloadTarget, requests: Seq<FileRequest>) -> Seq<QueuedView> {
    requests.map_values(|r: FileRequest| (target, request_view(r)))
}

/// A sequence of queued files as values.
pub open spec fn queue_views(s: Seq<(DownloadTarget, FileRequest)>) -> Seq<QueuedView> {
    s.map_values(|e: (DownloadTarget, FileRequest)| (e.0, request_view(e.1)))
}

/// Counting the files of a target over two joined queues adds the counts.
pub proof fn lemma_count_of_add(a: Seq<QueuedView>, b: Seq<QueuedView>, target: DownloadTarget)
    ensures
        count_of(a + b, target) == count_of(a, target) + count_of(b, target),
    decreases b.len(),
{
    if b.len() == 0 {
        assert(a + b =~= a);
    } else {
        lemma_count_of_add(a, b.drop_last(), target);
        assert((a + b).drop_last() =~= a + b.drop_last());
    }
}

proof fn lemma_count_of_queued(target: DownloadTarget, requests: Seq<FileRequest>, other: DownloadTarget)
    ensures
        count_of(queued(target, requests), other) == if other == target {
            requests.len()
        } else {
            0
        },
    decreases requests.len(),
{
    if requests.len() > 0 {
        lemma_count_of_queued(target, requests.drop_last(), other);
        assert(queued(target, requests).drop_last() =~= queued(target, requests.drop_last()));
    }
}

proof fn lemma_count_of_bound(waiting: Seq<QueuedView>)
    ensures
        count_of(waiting, DownloadTarget::Textures) + count_of(waiting, DownloadTarget::Skybox)
            == waiting.len(),
    decreases waiting.len(),
{
    if waiting.len() > 0 {
        lemma_count_of_bound(waiting.drop_last());
    }
}

struct Tally {
    total: usize,
    running: usize,
    done: usize,
}

/// The download queue of a whole run.
pub struct Scheduler {
    waiting: Vec<(DownloadTarget, FileRequest)>,
    limit: usize,
    textures: Tally,
    skybox: Tally,
}

impl View for Scheduler {
    type V = SchedulerView;

    closed spec fn view(&self) -> SchedulerView {
        SchedulerView {
            waiting: queue_views(self.waiting@),
            limit: self.limit as nat,
            textures: TallyView {
                total: self.textures.total as nat,
                running: self.textures.running as nat,
                done: self.textures.done as nat,
            },
            skybox: TallyView {
                total: self.skybox.total as nat,
                running: self.skybox.running as nat,
                done: self.skybox.done as nat,
            },
        }
    }
}

impl Scheduler {
    /// The queue is sound (see [`spec_wf`]).
    pub open spec fn wf(&self) -> bool {
        spec_wf(self@)
    }

    /// An empty queue for a run that lets at most `limit` files download at
    /// once.
    pub fn new(limit: usize) -> (res: Scheduler)
        ensures
            res@.waiting == Seq::<QueuedView>::empty(),
            res@.limit == limit,
            res@.textures == (TallyView { total: 0, running: 0, done: 0 }),
            res@.skybox == (TallyView { total: 0, running: 0, done: 0 }),
            res.wf(),
    {
        let res = Scheduler {
            waiting: Vec::new(),
            limit,
            textures: Tally { total: 0, running: 0, done: 0 },
            skybox: Tally { total: 0, running: 0, done: 0 },
        };
        assert(res@.waiting =~= Seq::<QueuedView>::empty());
        res
    }

    /// How many files are waiting to start.
    pub fn waiting_len(&self) -> (res: usize)
        ensures
            res == self@.waiting.len(),
    {
        self.waiting.len()
    }

    /// How many files of `target` are under way.
    pub fn running(&self, target: DownloadTarget) -> (res: usize)
        ensures
            res == tally(self@, target).running,
    {
        match target {
            DownloadTarget::Textures => self.textures.running,
            DownloadTarget::Skybox => self.skybox.running,
        }
    }

    /// How many files of `target` have finished.
    pub fn done(&self, target: DownloadTarget) -> (res: usize)
        ensures
            res == tally(self@, target).done,
    {
        match target {
            DownloadTarget::Textures => self.textures.done,
            DownloadTarget::Skybox => self.skybox.done,
        }
    }

    /// How many files of `target` were queued in all.
    pub fn total(&self, target: DownloadTarget) -> (res: usize)
        ensures
            res == tally(self@, target).total,
    {
        match target {
            DownloadTarget::Textures => self.textures.total,
            DownloadTarget::Skybox => self.skybox.total,
        }
    }

    /// Queues the files of `target`, behind those already waiting, and returns
    /// the report that they are about to be downloaded.
    pub fn add(&mut self, target: DownloadTarget, requests: Vec<FileRequest>) -> (res: String)
        requires
            old(self).wf(),
            tally(old(self)@, target).total + requests.len() <= usize::MAX,
        ensures
            final(self).wf(),
            final(self)@.waiting == old(self)@.waiting + queued(target, requests@),
            final(self)@.limit == old(self)@.limit,
            tally(final(self)@, target) == (TallyView {
                total: tally(old(self)@, target).total + requests.len() as nat,
                running: tally(old(self)@, target).running,
                done: tally(old(self)@, target).done,
            }),
            forall|other: DownloadTarget|
                other != target ==> tally(final(self)@, other) == tally(old(self)@, other),
            res@ == spec_prepare(requests.len() as nat, target),
    {
        let n = requests.len();
        let res = prepare_message(n, target);
        let mut extra: Vec<(DownloadTarget, FileRequest)> = Vec::new();
        let mut i: usize = 0;
        while i < requests.len()
            invariant
                i <= requests.len(),
                queue_views(extra@) == queued(target, requests@.take(i as int)),
            decreases requests.len() - i,
        {
            let r = &requests[i];
            let copy = FileRequest {
                url: r.url.clone(),
                path: r.path.clone(),
                filename: r.filename.clone(),
            };
            let ghost before = extra@;
            extra.push((target, copy));
            assert(queued(target, requests@.take(i + 1)) =~= queued(target, requests@.take(i as int)).push(
                (target, request_view(requests@[i as int])),
            ));
            assert(queue_views(extra@) =~= queue_views(before).push(
                (target, request_view(requests@[i as int])),
            ));
            i = i + 1;
        }
        assert(requests@.take(i as int) =~= requests@);
        let ghost old_waiting = queue_views(self.waiting@);
        self.waiting.append(&mut extra);
        assert(queue_views(self.waiting@) =~= old_waiting + queued(target, requests@));
        proof {
            lemma_count_of_add(old_waiting, queued(target, requests@), DownloadTarget::Textures);
            lemma_count_of_add(old_waiting, queued(target, requests@), DownloadTarget::Skybox);
            lemma_count_of_queued(target, requests@, DownloadTarget::Textures);
            lemma_count_of_queued(target, requests@, DownloadTarget::Skybox);
        }
        match target {
            DownloadTarget::Textures => {
                self.textures.total = self.textures.total + n;
            },
            DownloadTarget::Skybox => {
                self.skybox.total = self.skybox.total + n;
            },
        }
        res
    }

    /// Starts as many waiting files as the limit allows, from the front of the
    /// queue, and returns them in order (see [`spec_to_start`]).
    pub fn start_ready(&mut self) -> (res: Vec<(DownloadTarget, FileRequest)>)
        requires
            old(self).wf(),
        ensures
            final(self).wf(),
            queue_views(res@) == old(self)@.waiting.take(
                spec_to_start(
                    old(self)@.waiting.len(),
                    running_total(old(self)@),
                    old(self)@.limit,
                ) as int,
            ),
            final(self)@.waiting == old(self)@.waiting.skip(res.len() as int),
            final(self)@.limit == old(self)@.limit,
            forall|t: DownloadTarget|
                tally(final(self)@, t) == (TallyView {
                    total: tally(old(self)@, t).total,
                    running: tally(old(self)@, t).running + count_of(queue_views(res@), t),
                    done: tally(old(self)@, t).done,
                }),
    {
        let ghost old_view = self@;
        let k = downloads_to_start(
            self.waiting.len(),
            self.textures.running + self.skybox.running,
            self.limit,
        );
        let mut started = self.waiting.split_off(k);
        std::mem::swap(&mut started, &mut self.waiting);
        let ghost all = old_view.waiting;
        assert(queue_views(started@) =~= all.take(k as int));
        assert(queue_views(self.waiting@) =~= all.skip(k as int));
        proof {
            assert(all =~= all.take(k as int) + all.skip(k as int));
            lemma_count_of_add(all.take(k as int), all.skip(k as int), DownloadTarget::Textures);
            lemma_count_of_add(all.take(k as int), all.skip(k as int), DownloadTarget::Skybox);
            lemma_count_of_bound(all.take(k as int));
        }
        let mut tex: usize = 0;
        let mut sky: usize = 0;
        let mut i: usize = 0;
        while i < started.len()
            invariant
                i <= started.len(),
                started.len() == k,
                tex == count_of(queue_views(started@).take(i as int), DownloadTarget::Textures),
                sky == count_of(queue_views(started@).take(i as int), DownloadTarget::Skybox),
                tex + sky == i,
            decreases started.len() - i,
        {
            let ghost q = queue_views(started@);
            assert(q.take(i + 1).drop_last() =~= q.take(i as int));
            assert(q.take(i + 1).last() == q[i as int]);
            match started[i].0 {
                DownloadTarget::Textures => {
                    tex = tex + 1;
                },
                DownloadTarget::Skybox => {
                    sky = sky + 1;
                },
            }
            i = i + 1;
        }
        assert(queue_views(started@).take(i as int) =~= queue_views(started@));
        self.textures.running = self.textures.running + tex;
        self.skybox.running = self.skybox.running + sky;
        started
    }

    /// Records that one file of `target` finished, and returns its report.
    pub fn finish(&mut self, target: DownloadTarget) -> (res: String)
        requires
            old(self).wf(),
            tally(old(self)@, target).running > 0,
        ensures
            final(self).wf(),
            final(self)@.waiting == old(self)@.waiting,
            final(self)@.limit == old(self)@.limit,
            tally(final(self)@, target) == (TallyView {
                total: tally(old(self)@, target).total,
                running: (tally(old(self)@, target).running - 1) as nat,
                done: tally(old(self)@, target).done + 1,
            }),
            forall|other: DownloadTarget|
                other != target ==> tally(final(self)@, other) == tally(old(self)@, other),
            res@ == spec_progress(
                target,
                tally(old(self)@, target).done + 1,
                tally(old(self)@, target).total,
            ),
    {
        match target {
            DownloadTarget::Textures => {
                self.textures.running = self.textures.running - 1;
                self.textures.done = self.textures.done + 1;
                progress_message(target, self.textures.done, self.textures.total)
            },
            DownloadTarget::Skybox => {
                self.skybox.running = self.skybox.running - 1;
                self.skybox.done = self.skybox.done + 1;
                progress_message(target, self.skybox.done, self.skybox.total)
            },
        }
    }
}

/// In a sound queue no target finishes more files than it queued, and starting
/// files never lifts the number under way above the limit; whenever files wait
/// and none runs, at least one starts.
pub proof fn lemma_queue_bounds(v: SchedulerView)
    requires
        spec_wf(v),
    ensures
        v.textures.done <= v.textures.total,
        v.skybox.done <= v.skybox.total,
        running_total(v) + spec_to_start(v.waiting.len(), running_total(v), v.limit)
            <= spec_capacity(v.limit),
        running_total(v) == 0 && v.waiting.len() > 0 ==> spec_to_start(
            v.waiting.len(),
            running_total(v),
            v.limit,
        ) > 0,
{
}

} // verus!
