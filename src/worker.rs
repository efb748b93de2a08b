use vstd::prelude::*;
use crate::queue::ImageLoadingBundle;

verus! {

/// Address of a reference-set document is this prefix, the set's id, then the suffix.
pub const REFSET_URL_PREFIX: &'static str = "https://cd-static.bamgrid.com/dp-117731241344/sets/";

pub const REFSET_URL_SUFFIX: &'static str = ".json";

/// Reference-set id that stands for "no reference set".
pub const NO_REFSET: &'static str = "null";

/// One image ready for display: its texture and the row it belongs to.
#[derive(Clone, Copy, PartialEq, Eq, Structural, Debug)]
pub struct DImageLoaded {
    pub texture_id: u32,
    pub container_idx: usize,
}

pub open spec fn refset_url_spec(id: Seq<char>) -> Seq<char> {
    REFSET_URL_PREFIX@ + id + REFSET_URL_SUFFIX@
}

/// Address of the reference-set document with id `id`.
pub fn refset_url(id: &str) -> (r: String)
    ensures
        r@ == refset_url_spec(id@),
{
    let mut url = String::from_str(REFSET_URL_PREFIX);
    url.append(id);
    url.append(REFSET_URL_SUFFIX);
    url
}

/// A row has a reference set to resolve unless its id is the "null" marker.
pub fn needs_refset(id: &String) -> (r: bool)
    ensures
        r == (id@ != NO_REFSET@),
{
    let marker = String::from_str(NO_REFSET);
    !(*id == marker)
}

/// Key under which a reference-set document lists its items: the document's
/// first key where it has one, else the set's declared type.
pub fn refset_data_key(first_key: Option<String>, refset_type: &String) -> (r: String)
    ensures
        r == match first_key {
            Some(k) => k,
            None => *refset_type,
        },
{
    match first_key {
        Some(k) => k,
        None => refset_type.clone(),
    }
}

/// Where a worker stands in its loop.
#[derive(Clone, Copy, PartialEq, Eq, Structural, Debug)]
pub enum WorkerPhase {
    /// Waits for a bundle from the queue.
    Idle,
    /// Waits for the row's reference set.
    Resolving,
    /// Waits for an image download.
    Fetching,
    /// Waits for the consumer to take a finished image.
    Publishing,
    /// Has left its loop.
    Stopped,
}

/// What the worker asks its driver to do next.
pub enum WorkerAction {
    /// Take the next bundle from the shared queue.
    PopBundle,
    /// Download the reference-set document at this address and list its item URLs.
    FetchRefset(String),
    /// Download and decode the image at this address.
    FetchImage(String),
    /// Hand this finished image to the consumer.
    Publish(DImageLoaded),
    /// Leave the loop.
    Exit,
}

/// What the driver reports back after carrying out an action.
pub enum WorkerEvent {
    /// The queue handed out this bundle, or was empty.
    Popped(Option<ImageLoadingBundle>),
    /// The item URLs of the reference set, or `None` when it could not be
    /// fetched or held no item list.
    RefsetResolved(Option<Vec<String>>),
    /// The texture of the downloaded image, or `None` when the download or
    /// the decoding failed.
    ImageLoaded(Option<u32>),
    /// Whether the consumer was still there to take the image.
    Published(bool),
}

/// Decisions of one loading worker. It takes bundles one at a time, resolves
/// a bundle's reference set once, then downloads each of the bundle's
/// non-empty URLs in order, publishing each image that loads and skipping
/// each that does not. It stops when the queue is empty or when the
/// consumer has gone away.
pub struct Worker {
    pub phase: WorkerPhase,
    pub bundle: ImageLoadingBundle,
    /// Index of the first URL of `bundle` not yet considered.
    pub next_image: usize,
    /// Rows whose reference set could not be resolved.
    pub degraded_rows: Vec<usize>,
    /// URLs of the bundles finished so far.
    pub done_urls: Ghost<nat>,
    /// Downloads that succeeded so far.
    pub fetched: Ghost<nat>,
    /// Images the consumer took so far.
    pub published: Ghost<nat>,
    /// Images downloaded but never handed over because the worker left its
    /// loop while holding them.
    pub undelivered: Ghost<nat>,
}

/// First index at or after `i` whose URL is not empty, or the length when
/// there is none.
pub open spec fn first_url_from(urls: Seq<String>, i: int) -> int
    decreases urls.len() - i,
{
    if i >= urls.len() {
        urls.len() as int
    } else if urls[i]@.len() > 0 {
        i
    } else {
        first_url_from(urls, i + 1)
    }
}

impl Worker {
    /// URLs of every bundle taken so far, listed or resolved.
    pub open spec fn urls_seen(&self) -> nat {
        if (self.phase is Resolving) || (self.phase is Fetching) || (self.phase is Publishing) {
            self.done_urls@ + self.bundle.images_to_load@.len()
        } else {
            self.done_urls@
        }
    }

    /// Counting invariant: every download was of a URL of a bundle taken,
    /// and every successful download but the one in hand was published.
    pub open spec fn wf(&self) -> bool {
        &&& self.published@ <= self.fetched@
        &&& (self.phase is Fetching) ==> self.fetched@ < self.done_urls@ + self.next_image
        &&& (self.phase is Publishing) ==> self.fetched@ <= self.done_urls@ + self.next_image
        &&& !(self.phase is Fetching) && !(self.phase is Publishing) ==> self.fetched@ <= self.done_urls@
        &&& ((self.phase is Fetching) || (self.phase is Publishing) || (self.phase is Resolving)) ==> self.next_image <= self.bundle.images_to_load@.len()
        &&& (self.phase is Resolving) ==> self.next_image == 0
        &&& self.undelivered@ <= 1
        &&& !(self.phase is Stopped) ==> self.undelivered@ == 0
        &&& self.fetched@ == self.published@ + self.undelivered@ + if (self.phase is Publishing) {
            1nat
        } else {
            0nat
        }
    }

    /// A worker that has taken nothing yet; its first action is to take a
    /// bundle.
    pub fn new() -> (r: (Worker, WorkerAction))
        ensures
            r.0.wf(),
            r.0.phase == WorkerPhase::Idle,
            r.0.degraded_rows@.len() == 0,
            r.0.urls_seen() == 0,
            r.0.fetched@ == 0,
            r.0.published@ == 0,
            r.0.undelivered@ == 0,
            r.1 is PopBundle,
    {
        let w = Worker {
            phase: WorkerPhase::Idle,
            bundle: ImageLoadingBundle {
                refset_id: String::new(),
                refset_type: String::new(),
                container_idx: 0,
                images_to_load: Vec::new(),
            },
            next_image: 0,
            degraded_rows: Vec::new(),
            done_urls: Ghost(0),
            fetched: Ghost(0),
            published: Ghost(0),
            undelivered: Ghost(0),
        };
        (w, WorkerAction::PopBundle)
    }

    /// Moves to the next non-empty URL of the bundle and asks for it, or,
    /// when none is left, finishes the bundle and asks for another.
    fn advance(&mut self) -> (r: WorkerAction)
        requires
            old(self).phase is Fetching,
            old(self).next_image <= old(self).bundle.images_to_load@.len(),
            old(self).undelivered@ == 0,
            old(self).fetched@ == old(self).published@,
            old(self).fetched@ <= old(self).done_urls@ + old(self).next_image,
        ensures
            final(self).wf(),
            final(self).urls_seen() == old(self).urls_seen(),
            final(self).fetched@ == old(self).fetched@,
            final(self).published@ == old(self).published@,
            final(self).undelivered@ == old(self).undelivered@,
            final(self).degraded_rows == old(self).degraded_rows,
            final(self).bundle == old(self).bundle,
            ({
                let urls = old(self).bundle.images_to_load@;
                let j = first_url_from(urls, old(self).next_image as int);
                if j < urls.len() {
                    &&& r == WorkerAction::FetchImage(urls[j])
                    &&& final(self).phase == WorkerPhase::Fetching
                    &&& final(self).bundle == old(self).bundle
                    &&& final(self).next_image == j + 1
                } else {
                    &&& r is PopBundle
                    &&& final(self).phase == WorkerPhase::Idle
                }
            }),
    {
        let n = self.bundle.images_to_load.len();
        let mut j = self.next_image;
        while j < n
            invariant
                *self == *old(self),
                self.phase is Fetching,
                self.undelivered@ == 0,
                self.fetched@ == self.published@,
                self.fetched@ <= self.done_urls@ + self.next_image,
                self.next_image <= j <= n,
                n == self.bundle.images_to_load@.len(),
                first_url_from(self.bundle.images_to_load@, self.next_image as int)
                    == first_url_from(self.bundle.images_to_load@, j as int),
            decreases n - j,
        {
            if !self.bundle.images_to_load[j].as_str().is_empty() {
                let url = self.bundle.images_to_load[j].clone();
                self.next_image = j + 1;
                return WorkerAction::FetchImage(url);
            }
            j = j + 1;
        }
        self.done_urls = Ghost(self.done_urls@ + n as nat);
        self.phase = WorkerPhase::Idle;
        WorkerAction::PopBundle
    }

    /// Carries out the decision that `event` calls for and returns the next
    /// action:
    /// - a bundle taken: resolve its reference set if it has one, else
    ///   download its first non-empty URL, else take another bundle;
    /// - the queue empty: exit;
    /// - the reference set resolved: append its URLs to the bundle; not
    ///   resolved: mark the row degraded and keep the URLs already known;
    ///   either way go on downloading;
    /// - an image loaded: publish it; not loaded: skip it;
    /// - an image published: go on; the consumer gone: exit;
    /// - any event that does not answer the last action: exit.
    pub fn step(&mut self, event: WorkerEvent) -> (r: WorkerAction)
        requires
            old(self).wf(),
        ensures
            final(self).wf(),
            final(self).fetched@ == old(self).fetched@ + if (old(self).phase is Fetching) && (event matches WorkerEvent::ImageLoaded(Some(_))) {
                1nat
            } else {
                0nat
            },
            final(self).published@ == old(self).published@ + if (old(self).phase is Publishing) && event == WorkerEvent::Published(true) {
                1nat
            } else {
                0nat
            },
            final(self).undelivered@ == old(self).undelivered@ + if (old(self).phase is Publishing) && event != WorkerEvent::Published(true) {
                1nat
            } else {
                0nat
            },
            final(self).urls_seen() == old(self).urls_seen() + match event {
                WorkerEvent::Popped(Some(b)) if (old(self).phase is Idle) => b.images_to_load@.len(),
                WorkerEvent::RefsetResolved(Some(u)) if (old(self).phase is Resolving) => u@.len(),
                _ => 0nat,
            },
            final(self).degraded_rows@ == if (old(self).phase is Resolving) && event == WorkerEvent::RefsetResolved(None) {
                old(self).degraded_rows@.push(old(self).bundle.container_idx)
            } else {
                old(self).degraded_rows@
            },
            match (old(self).phase, event) {
                (WorkerPhase::Idle, WorkerEvent::Popped(None)) => stopped(r, *final(self)),
                (WorkerPhase::Idle, WorkerEvent::Popped(Some(b))) => if b.refset_id@ != NO_REFSET@ {
                    &&& r matches WorkerAction::FetchRefset(url) && url@ == refset_url_spec(b.refset_id@)
                    &&& final(self).phase == WorkerPhase::Resolving
                    &&& final(self).bundle == b
                    &&& final(self).next_image == 0
                } else {
                    &&& final(self).bundle.container_idx == b.container_idx
                    &&& fetch_next(b.images_to_load@, 0, r, *final(self))
                },
                (WorkerPhase::Resolving, WorkerEvent::RefsetResolved(Some(u))) => {
                    &&& final(self).bundle.container_idx == old(self).bundle.container_idx
                    &&& fetch_next(old(self).bundle.images_to_load@ + u@, 0, r, *final(self))
                },
                (WorkerPhase::Resolving, WorkerEvent::RefsetResolved(None)) => {
                    &&& final(self).bundle.container_idx == old(self).bundle.container_idx
                    &&& fetch_next(old(self).bundle.images_to_load@, 0, r, *final(self))
                },
                (WorkerPhase::Fetching, WorkerEvent::ImageLoaded(Some(t))) => {
                    &&& r == WorkerAction::Publish(
                        DImageLoaded { texture_id: t, container_idx: old(self).bundle.container_idx },
                    )
                    &&& final(self).phase == WorkerPhase::Publishing
                    &&& final(self).bundle == old(self).bundle
                    &&& final(self).next_image == old(self).next_image
                },
                (WorkerPhase::Fetching, WorkerEvent::ImageLoaded(None)) => {
                    &&& final(self).bundle.container_idx == old(self).bundle.container_idx
                    &&& fetch_next(old(self).bundle.images_to_load@, old(self).next_image as int, r, *final(self))
                },
                (WorkerPhase::Publishing, WorkerEvent::Published(true)) => {
                    &&& final(self).bundle.container_idx == old(self).bundle.container_idx
                    &&& fetch_next(old(self).bundle.images_to_load@, old(self).next_image as int, r, *final(self))
                },
                _ => stopped(r, *final(self)),
            },
    {
        let phase = self.phase;
        match event {
            WorkerEvent::Popped(popped) => {
                if phase != WorkerPhase::Idle {
                    return self.stop();
                }
                match popped {
                    None => self.stop(),
                    Some(b) => {
                        self.bundle = b;
                        self.next_image = 0;
                        if needs_refset(&self.bundle.refset_id) {
                            let url = refset_url(self.bundle.refset_id.as_str());
                            self.phase = WorkerPhase::Resolving;
                            WorkerAction::FetchRefset(url)
                        } else {
                            self.phase = WorkerPhase::Fetching;
                            self.advance()
                        }
                    },
                }
            },
            WorkerEvent::RefsetResolved(resolved) => {
                if phase != WorkerPhase::Resolving {
                    return self.stop();
                }
                match resolved {
                    Some(mut urls) => {
                        self.bundle.images_to_load.append(&mut urls);
                    },
                    None => {
                        self.degraded_rows.push(self.bundle.container_idx);
                    },
                }
                self.phase = WorkerPhase::Fetching;
                self.advance()
            },
            WorkerEvent::ImageLoaded(loaded) => {
                if phase != WorkerPhase::Fetching {
                    return self.stop();
                }
                match loaded {
                    Some(texture_id) => {
                        self.fetched = Ghost(self.fetched@ + 1);
                        self.phase = WorkerPhase::Publishing;
                        WorkerAction::Publish(
                            DImageLoaded { texture_id, container_idx: self.bundle.container_idx },
                        )
                    },
                    None => self.advance(),
                }
            },
            WorkerEvent::Published(taken) => {
                if phase != WorkerPhase::Publishing || !taken {
                    return self.stop();
                }
                self.published = Ghost(self.published@ + 1);
                self.phase = WorkerPhase::Fetching;
                self.advance()
            },
        }
    }

    /// Leaves the loop: no further action but `Exit`.
    fn stop(&mut self) -> (r: WorkerAction)
        requires
            old(self).wf(),
        ensures
            final(self).wf(),
            stopped(r, *final(self)),
            final(self).fetched == old(self).fetched,
            final(self).published == old(self).published,
            final(self).undelivered@ == old(self).undelivered@ + if (old(self).phase is Publishing) {
                1nat
            } else {
                0nat
            },
            final(self).urls_seen() == old(self).urls_seen(),
            final(self).degraded_rows == old(self).degraded_rows,
    {
        if self.phase == WorkerPhase::Publishing {
            self.undelivered = Ghost(self.undelivered@ + 1);
        }
        if self.phase == WorkerPhase::Resolving || self.phase == WorkerPhase::Fetching
            || self.phase == WorkerPhase::Publishing {
            self.done_urls = Ghost(self.done_urls@ + self.bundle.images_to_load@.len());
        }
        self.phase = WorkerPhase::Stopped;
        WorkerAction::Exit
    }
}

/// `r` asks to exit and `w` has stopped.
pub open spec fn stopped(r: WorkerAction, w: Worker) -> bool {
    r is Exit && w.phase == WorkerPhase::Stopped
}

/// `r` and `w` are what follows once the URLs from index `from` on are
/// considered: a download of the first non-empty one, or, with none left,
/// a request for the next bundle.
pub open spec fn fetch_next(urls: Seq<String>, from: int, r: WorkerAction, w: Worker) -> bool {
    let j = first_url_from(urls, from);
    if j < urls.len() {
        &&& r == WorkerAction::FetchImage(urls[j])
        &&& w.phase == WorkerPhase::Fetching
        &&& w.bundle.images_to_load@ == urls
        &&& w.next_image == j + 1
    } else {
        &&& r is PopBundle
        &&& w.phase == WorkerPhase::Idle
    }
}

/// Images handed to the consumer never outnumber successful downloads, and
/// those never outnumber the URLs of the bundles taken, listed or resolved.
/// Once no image is in hand, every successful download was handed over,
/// except one the worker held when the consumer went away.
pub proof fn lemma_completions_bounded(w: Worker)
    requires
        w.wf(),
    ensures
        w.published@ <= w.fetched@,
        w.fetched@ <= w.urls_seen(),
        w.undelivered@ <= 1,
        !(w.phase is Publishing) ==> w.published@ + w.undelivered@ == w.fetched@,
{
}

/// Sum of `f` over the workers of a pool.
pub open spec fn pool_sum(ws: Seq<Worker>, f: spec_fn(Worker) -> nat) -> nat
    decreases ws.len(),
{
    if ws.len() == 0 {
        0
    } else {
        pool_sum(ws.drop_last(), f) + f(ws.last())
    }
}

/// Over a whole pool whose workers hold no image, the images the consumer
/// received are the successful downloads less those lost to a departed
/// consumer, and the successful downloads never outnumber the URLs of all
/// bundles taken, listed or resolved.
pub proof fn lemma_pool_completions_bounded(ws: Seq<Worker>)
    requires
        forall|i: int| 0 <= i < ws.len() ==> (#[trigger] ws[i]).wf() && !(ws[i].phase is Publishing),
    ensures
        pool_sum(ws, |w: Worker| w.published@) + pool_sum(ws, |w: Worker| w.undelivered@) == pool_sum(
            ws,
            |w: Worker| w.fetched@,
        ),
        pool_sum(ws, |w: Worker| w.fetched@) <= pool_sum(ws, |w: Worker| w.urls_seen()),
        pool_sum(ws, |w: Worker| w.undelivered@) == 0 ==> pool_sum(ws, |w: Worker| w.published@)
            == pool_sum(ws, |w: Worker| w.fetched@),
    decreases ws.len(),
{
    if ws.len() > 0 {
        let rest = ws.drop_last();
        assert forall|i: int| 0 <= i < rest.len() implies (#[trigger] rest[i]).wf() && !(rest[i].phase is Publishing) by {
            assert(rest[i] == ws[i]);
        }
        lemma_pool_completions_bounded(rest);
        assert(ws.last() == ws[ws.len() - 1]);
        lemma_completions_bounded(ws.last());
    }
}

} // verus!
