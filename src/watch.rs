use vstd::prelude::*;

verus! {

/// What the polling loop reports back to the watcher.
#[derive(Debug)]
pub enum WatchEvent {
    /// The file's content fingerprint was computed.
    Fingerprinted(String),
    /// The fingerprint could not be computed (missing file, I/O error).
    FingerprintFailed,
    /// The file was read in full.
    Read(String),
    /// The file could not be read.
    ReadFailed,
}

/// What the polling loop is to do next.
#[derive(Debug, PartialEq, Eq)]
pub enum WatchAction {
    /// Nothing until the next tick.
    Wait,
    /// Read the whole file and report it.
    ReadFile,
    /// Hand these contents to the change handler.
    Deliver(String),
}

pub enum EventModel {
    Fingerprinted(Seq<char>),
    FingerprintFailed,
    Read(Seq<char>),
    ReadFailed,
}

pub enum ActionModel {
    Wait,
    ReadFile,
    Deliver(Seq<char>),
}

/// The watcher's state: the fingerprint of the last delivered content (none
/// before the first delivery) and the fingerprint of a read in progress.
pub struct WatchModel {
    pub last: Option<Seq<char>>,
    pub pending: Option<Seq<char>>,
}

impl View for WatchEvent {
    type V = EventModel;

    open spec fn view(&self) -> EventModel {
        match self {
            WatchEvent::Fingerprinted(f) => EventModel::Fingerprinted(f@),
            WatchEvent::FingerprintFailed => EventModel::FingerprintFailed,
            WatchEvent::Read(c) => EventModel::Read(c@),
            WatchEvent::ReadFailed => EventModel::ReadFailed,
        }
    }
}

impl View for WatchAction {
    type V = ActionModel;

    open spec fn view(&self) -> ActionModel {
        match self {
            WatchAction::Wait => ActionModel::Wait,
            WatchAction::ReadFile => ActionModel::ReadFile,
            WatchAction::Deliver(c) => ActionModel::Deliver(c@),
        }
    }
}

/// One decision of the watcher: a fingerprint other than the last delivered
/// one asks for a read; a successful read after that is delivered and its
/// fingerprint becomes the last one; a failure keeps the last fingerprint.
pub open spec fn watch_step(s: WatchModel, e: EventModel) -> (WatchModel, ActionModel) {
    match e {
        EventModel::Fingerprinted(f) => if s.last == Some(f) {
            (WatchModel { last: s.last, pending: None }, ActionModel::Wait)
        } else {
            (WatchModel { last: s.last, pending: Some(f) }, ActionModel::ReadFile)
        },
        EventModel::Read(c) => match s.pending {
            Some(f) => (WatchModel { last: Some(f), pending: None }, ActionModel::Deliver(c)),
            None => (s, ActionModel::Wait),
        },
        _ => (WatchModel { last: s.last, pending: None }, ActionModel::Wait),
    }
}

/// Decides, poll by poll, whether a watched file changed and when its
/// contents go to the change handler.
pub struct FileWatcher {
    period_ms: u64,
    last: Option<String>,
    pending: Option<String>,
}

impl View for FileWatcher {
    type V = WatchModel;

    closed spec fn view(&self) -> WatchModel {
        WatchModel {
            last: match self.last {
                Some(f) => Some(f@),
                None => None,
            },
            pending: match self.pending {
                Some(f) => Some(f@),
                None => None,
            },
        }
    }
}

impl FileWatcher {
    pub closed spec fn spec_period_ms(&self) -> u64 {
        self.period_ms
    }

    /// A watcher that has delivered nothing yet, polling every `period_ms`.
    pub fn new(period_ms: u64) -> (w: FileWatcher)
        ensures
            w@ == (WatchModel { last: None, pending: None }),
            w.spec_period_ms() == period_ms,
    {
        FileWatcher { period_ms, last: None, pending: None }
    }

    /// The time between two polls, in milliseconds.
    pub fn period_ms(&self) -> (r: u64)
        ensures
            r == self.spec_period_ms(),
    {
        self.period_ms
    }

    /// Takes in what the last action produced and says what to do next.
    pub fn step(&mut self, event: WatchEvent) -> (a: WatchAction)
        ensures
            (final(self)@, a@) == watch_step(old(self)@, event@),
            final(self).spec_period_ms() == old(self).spec_period_ms(),
    {
        match event {
            WatchEvent::Fingerprinted(f) => {
                let same = match &self.last {
                    Some(l) => *l == f,
                    None => false,
                };
                if same {
                    self.pending = None;
                    WatchAction::Wait
                } else {
                    self.pending = Some(f);
                    WatchAction::ReadFile
                }
            },
            WatchEvent::Read(c) => {
                let pending = self.pending.take();
                match pending {
                    Some(f) => {
                        self.last = Some(f);
                        WatchAction::Deliver(c)
                    },
                    None => WatchAction::Wait,
                }
            },
            _ => {
                self.pending = None;
                WatchAction::Wait
            },
        }
    }
}

/// Once content with fingerprint `f` has been delivered, another poll that
/// finds `f` again does not deliver it a second time, nor does a read that
/// follows.
pub proof fn lemma_unchanged_not_redelivered(s: WatchModel, f: Seq<char>, c: Seq<char>, d: Seq<char>)
    requires
        s.pending == Some(f),
    ensures
        watch_step(s, EventModel::Read(c)).1 == ActionModel::Deliver(c),
        ({
            let s1 = watch_step(s, EventModel::Read(c)).0;
            let (s2, a2) = watch_step(s1, EventModel::Fingerprinted(f));
            &&& a2 == ActionModel::Wait
            &&& s2.last == Some(f)
            &&& watch_step(s2, EventModel::Read(d)).1 == ActionModel::Wait
        }),
{
}

/// A poll that finds a fingerprint `g` other than the last delivered one
/// leads to exactly one delivery, of the full contents then read; a
/// further poll that finds `g` again delivers nothing.
pub proof fn lemma_change_delivered_once(s: WatchModel, g: Seq<char>, c: Seq<char>)
    requires
        s.last != Some(g),
    ensures
        ({
            let (s1, a1) = watch_step(s, EventModel::Fingerprinted(g));
            let (s2, a2) = watch_step(s1, EventModel::Read(c));
            let (s3, a3) = watch_step(s2, EventModel::Fingerprinted(g));
            &&& a1 == ActionModel::ReadFile
            &&& a2 == ActionModel::Deliver(c)
            &&& s2.last == Some(g)
            &&& a3 == ActionModel::Wait
        }),
{
}

/// A failed read keeps the last delivered fingerprint, so the same changed
/// content is delivered once a later read succeeds.
pub proof fn lemma_failed_read_retried(s: WatchModel, g: Seq<char>, c: Seq<char>)
    requires
        s.last != Some(g),
    ensures
        ({
            let (s1, a1) = watch_step(s, EventModel::Fingerprinted(g));
            let (s2, a2) = watch_step(s1, EventModel::ReadFailed);
            let (s3, a3) = watch_step(s2, EventModel::Fingerprinted(g));
            let (s4, a4) = watch_step(s3, EventModel::Read(c));
            &&& a2 == ActionModel::Wait
            &&& s2.last == s.last
            &&& a3 == ActionModel::ReadFile
            &&& a4 == ActionModel::Deliver(c)
            &&& s4.last == Some(g)
        }),
{
}

} // verus!
