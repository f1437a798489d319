//! An in-memory clipboard. It behaves like a real one: a programmatic write fires the
//! watchers, which exercises echo suppression.

use crate::clipboard::{narrow, narrowed, ClipboardEvent, EventView};
use crate::offer::{clone_offer, new_offer, offer_pairs, offer_types, types_of};
use crate::offer::{Offer, Pair};
use crate::protocol::SelectionKind;
use crate::text::texts;
use vstd::prelude::*;

verus! {

/// What a read of the in-memory clipboard gives.
pub enum MockRead {
    /// The content.
    Content(Offer),
    /// Reads are stalled.
    Stalled,
}

/// In-memory clipboard.
pub struct MockClipboard {
    clipboard: Option<Offer>,
    selection: Option<Offer>,
    /// The events that each watcher has not taken yet, oldest first.
    queues: Vec<Vec<ClipboardEvent>>,
    writes: u64,
    fail_writes: bool,
    fail_reads: bool,
    reads_blocked: bool,
}

/// Events, over representations.
pub open spec fn events_of(queue: Seq<ClipboardEvent>) -> Seq<EventView> {
    queue.map_values(|e: ClipboardEvent| e@)
}

/// The queues of the watchers, over representations.
pub open spec fn queues_of(queues: Seq<Vec<ClipboardEvent>>) -> Seq<Seq<EventView>> {
    queues.map_values(|q: Vec<ClipboardEvent>| events_of(q@))
}

/// The queues after an event was handed to every watcher.
pub open spec fn told(queues: Seq<Seq<EventView>>, event: EventView) -> Seq<Seq<EventView>> {
    queues.map_values(|q: Seq<EventView>| q.push(event))
}

/// What a new watcher is told of a selection.
pub open spec fn first_news(kind: SelectionKind, content: Option<Seq<Pair>>) -> Seq<EventView> {
    match crate::clipboard::startup_report(kind, content) {
        Some(e) => seq![e],
        None => Seq::empty(),
    }
}

impl MockClipboard {
    /// What a selection holds.
    pub closed spec fn content(&self, kind: SelectionKind) -> Option<Seq<Pair>> {
        match kind {
            SelectionKind::Clipboard => crate::clipboard::pairs_opt(self.clipboard),
            SelectionKind::Selection => crate::clipboard::pairs_opt(self.selection),
        }
    }

    /// The events that each watcher has not taken yet.
    pub closed spec fn queues(&self) -> Seq<Seq<EventView>> {
        queues_of(self.queues@)
    }

    /// How many writes were made.
    pub closed spec fn writes(&self) -> u64 {
        self.writes
    }

    /// Whether writes fail.
    pub closed spec fn writes_fail(&self) -> bool {
        self.fail_writes
    }

    /// Whether reads fail.
    pub closed spec fn reads_fail(&self) -> bool {
        self.fail_reads
    }

    /// Whether reads are stalled.
    pub closed spec fn reads_stall(&self) -> bool {
        self.reads_blocked
    }

    /// Whether the switches are those of `other`.
    pub open spec fn same_switches(&self, other: MockClipboard) -> bool {
        &&& self.writes_fail() == other.writes_fail()
        &&& self.reads_fail() == other.reads_fail()
        &&& self.reads_stall() == other.reads_stall()
    }

    /// Whether all but the switches is as in `other`.
    pub open spec fn same_state(&self, other: MockClipboard) -> bool {
        &&& forall|kind: SelectionKind|
            (#[trigger] self.content(kind)) == other.content(kind)
        &&& self.queues() == other.queues()
        &&& self.writes() == other.writes()
    }

    /// An empty clipboard that nobody watches.
    pub fn new() -> (r: MockClipboard)
        ensures
            forall|kind: SelectionKind| (#[trigger] r.content(kind)) is None,
            r.queues() == Seq::<Seq<EventView>>::empty(),
            r.writes() == 0,
            !r.writes_fail(),
            !r.reads_fail(),
            !r.reads_stall(),
    {
        let r = MockClipboard {
            clipboard: None,
            selection: None,
            queues: Vec::new(),
            writes: 0,
            fail_writes: false,
            fail_reads: false,
            reads_blocked: false,
        };
        proof {
            assert(r.queues() =~= Seq::<Seq<EventView>>::empty());
        }
        r
    }

    /// Makes subsequent writes fail.
    pub fn set_fail_writes(&mut self, fail: bool)
        ensures
            final(self).same_state(*old(self)),
            final(self).writes_fail() == fail,
            final(self).reads_fail() == old(self).reads_fail(),
            final(self).reads_stall() == old(self).reads_stall(),
    {
        self.fail_writes = fail;
    }

    /// Makes subsequent reads fail.
    pub fn set_fail_reads(&mut self, fail: bool)
        ensures
            final(self).same_state(*old(self)),
            final(self).writes_fail() == old(self).writes_fail(),
            final(self).reads_fail() == fail,
            final(self).reads_stall() == old(self).reads_stall(),
    {
        self.fail_reads = fail;
    }

    /// Stalls every subsequent read until [`MockClipboard::allow_reads`].
    pub fn block_reads(&mut self)
        ensures
            final(self).same_state(*old(self)),
            final(self).writes_fail() == old(self).writes_fail(),
            final(self).reads_fail() == old(self).reads_fail(),
            final(self).reads_stall(),
    {
        self.reads_blocked = true;
    }

    /// Stops stalling reads.
    pub fn allow_reads(&mut self)
        ensures
            final(self).same_state(*old(self)),
            final(self).writes_fail() == old(self).writes_fail(),
            final(self).reads_fail() == old(self).reads_fail(),
            !final(self).reads_stall(),
    {
        self.reads_blocked = false;
    }

    /// Puts content on a selection without telling the watchers, as content that was there
    /// before.
    pub fn seed(&mut self, kind: SelectionKind, offer: Offer)
        ensures
            final(self).same_switches(*old(self)),
            final(self).queues() == old(self).queues(),
            final(self).writes() == old(self).writes(),
            forall|k: SelectionKind|
                (#[trigger] final(self).content(k)) == (if k == kind {
                    Some(offer_pairs(offer))
                } else {
                    old(self).content(k)
                }),
    {
        match kind {
            SelectionKind::Clipboard => {
                self.clipboard = Some(offer);
            },
            SelectionKind::Selection => {
                self.selection = Some(offer);
            },
        }
    }

    /// A user copying something locally: it is stored, and every watcher is told.
    pub fn local_copy(&mut self, kind: SelectionKind, offer: Offer)
        ensures
            final(self).same_switches(*old(self)),
            final(self).queues() == told(old(self).queues(), EventView::Changed(kind)),
            final(self).writes() == old(self).writes(),
            forall|k: SelectionKind|
                (#[trigger] final(self).content(k)) == (if k == kind {
                    Some(offer_pairs(offer))
                } else {
                    old(self).content(k)
                }),
    {
        self.seed(kind, offer);
        let ghost seeded = *self;
        let ghost before = queues_of(self.queues@);
        let ghost n = self.queues@.len();
        let mut all: Vec<Vec<ClipboardEvent>> = Vec::new();
        std::mem::swap(&mut all, &mut self.queues);
        let mut left: usize = all.len();
        let mut back: Vec<Vec<ClipboardEvent>> = Vec::new();
        while left > 0
            invariant
                left == all@.len(),
                left + back@.len() == n,
                before.len() == n,
                queues_of(all@) == before.take(left as int),
                forall|i: int|
                    0 <= i < back@.len() ==> events_of((#[trigger] back@[i])@) == before[n - 1
                        - i].push(EventView::Changed(kind)),
            decreases left,
        {
            let ghost was = all@;
            let mut q = all.pop().unwrap();
            let ghost events = q@;
            q.push(ClipboardEvent::Changed(kind));
            proof {
                assert(queues_of(was)[left - 1] == events_of(events));
                assert(before.take(left as int)[left - 1] == before[left - 1]);
                assert(events_of(q@) =~= before[left - 1].push(EventView::Changed(kind)));
                assert(queues_of(all@) =~= before.take(left - 1));
            }
            back.push(q);
            left = left - 1;
        }
        let mut m: usize = back.len();
        let mut queues: Vec<Vec<ClipboardEvent>> = Vec::new();
        while m > 0
            invariant
                m == back@.len(),
                m + queues@.len() == n,
                before.len() == n,
                forall|i: int|
                    0 <= i < back@.len() ==> events_of((#[trigger] back@[i])@) == before[n - 1
                        - i].push(EventView::Changed(kind)),
                forall|i: int|
                    0 <= i < queues@.len() ==> events_of((#[trigger] queues@[i])@)
                        == before[i].push(EventView::Changed(kind)),
            decreases m,
        {
            let q = back.pop().unwrap();
            queues.push(q);
            m = m - 1;
        }
        proof {
            assert(queues_of(queues@) =~= told(before, EventView::Changed(kind)));
        }
        self.queues = queues;
        proof {
            assert forall|k: SelectionKind|
                (#[trigger] self.content(k)) == seeded.content(k) by {}
        }
    }

    /// A copy of what a selection holds.
    pub fn get(&self, kind: SelectionKind) -> (r: Option<Offer>)
        ensures
            crate::clipboard::pairs_opt(r) == self.content(kind),
    {
        let held = match kind {
            SelectionKind::Clipboard => &self.clipboard,
            SelectionKind::Selection => &self.selection,
        };
        match held {
            Some(o) => Some(clone_offer(o)),
            None => None,
        }
    }

    /// How many writes were made.
    pub fn write_count(&self) -> (r: u64)
        ensures
            r == self.writes(),
    {
        self.writes
    }

    /// How many watchers there are.
    pub fn watcher_count(&self) -> (r: usize)
        ensures
            r == self.queues().len(),
    {
        self.queues.len()
    }

    /// Adds a watcher, and tells it of the content there is: a copy that came before is
    /// told here, one that comes later is a change. Returns the watcher's number.
    pub fn watch(&mut self) -> (r: usize)
        ensures
            r == old(self).queues().len(),
            final(self).same_switches(*old(self)),
            forall|kind: SelectionKind|
                (#[trigger] final(self).content(kind)) == old(self).content(kind),
            final(self).writes() == old(self).writes(),
            final(self).queues() == old(self).queues().push(
                first_news(
                    SelectionKind::Clipboard,
                    old(self).content(SelectionKind::Clipboard),
                ) + first_news(
                    SelectionKind::Selection,
                    old(self).content(SelectionKind::Selection),
                ),
            ),
    {
        let ghost was = self.queues@;
        let mut q: Vec<ClipboardEvent> = Vec::new();
        let clipboard = self.get(SelectionKind::Clipboard);
        if let Some(e) = crate::clipboard::report_initial(SelectionKind::Clipboard, clipboard) {
            q.push(e);
        }
        let selection = self.get(SelectionKind::Selection);
        if let Some(e) = crate::clipboard::report_initial(SelectionKind::Selection, selection) {
            q.push(e);
        }
        proof {
            assert(events_of(q@) =~= first_news(
                SelectionKind::Clipboard,
                self.content(SelectionKind::Clipboard),
            ) + first_news(SelectionKind::Selection, self.content(SelectionKind::Selection)));
        }
        let ghost news = q@;
        let r: usize = self.queues.len();
        self.queues.push(q);
        proof {
            assert(self.queues() =~= queues_of(was).push(events_of(news)));
        }
        r
    }

    /// Takes the oldest event that a watcher has not taken yet.
    pub fn recv(&mut self, watcher: usize) -> (r: Option<ClipboardEvent>)
        requires
            watcher < old(self).queues().len(),
        ensures
            final(self).same_switches(*old(self)),
            forall|kind: SelectionKind|
                (#[trigger] final(self).content(kind)) == old(self).content(kind),
            final(self).writes() == old(self).writes(),
            match r {
                Some(e) => {
                    let q = old(self).queues()[watcher as int];
                    &&& q.len() > 0
                    &&& e@ == q[0]
                    &&& final(self).queues() == old(self).queues().update(
                        watcher as int,
                        q.skip(1),
                    )
                },
                None => {
                    &&& old(self).queues()[watcher as int].len() == 0
                    &&& final(self).queues() == old(self).queues()
                },
            },
    {
        let ghost was = self.queues@;
        let mut q: Vec<ClipboardEvent> = Vec::new();
        std::mem::swap(&mut q, &mut self.queues[watcher]);
        let ghost events = q@;
        proof {
            assert(was[watcher as int]@ == events);
            assert(queues_of(was)[watcher as int] == events_of(events));
        }
        if q.len() == 0 {
            self.queues[watcher] = q;
            proof {
                assert(self.queues() =~= queues_of(was));
            }
            return None;
        }
        let e = q.remove(0);
        let ghost rest = q@;
        self.queues[watcher] = q;
        proof {
            assert(events_of(rest) =~= events_of(events).skip(1));
            assert(self.queues() =~= queues_of(was).update(
                watcher as int,
                events_of(events).skip(1),
            ));
        }
        Some(e)
    }

    /// The types that a selection offers. Neither fails nor stalls: it reads no contents.
    pub fn list_types(&self, kind: SelectionKind) -> (r: Vec<String>)
        ensures
            texts(r@) == (match self.content(kind) {
                Some(pairs) => types_of(pairs),
                None => Seq::empty(),
            }),
    {
        match self.get(kind) {
            Some(o) => offer_types(&o),
            None => {
                let r: Vec<String> = Vec::new();
                proof {
                    assert(texts(r@) =~= Seq::<Seq<char>>::empty());
                }
                r
            },
        }
    }

    /// What a selection holds, or what of it satisfies `only`.
    pub fn read_offer(&self, kind: SelectionKind, only: Option<&str>) -> (r: Result<
        MockRead,
        String,
    >)
        ensures
            match r {
                Err(e) => self.reads_fail() && e@ == "simulated clipboard read failure"@,
                Ok(MockRead::Stalled) => !self.reads_fail() && self.reads_stall(),
                Ok(MockRead::Content(o)) => {
                    let all = match self.content(kind) {
                        Some(pairs) => pairs,
                        None => Seq::empty(),
                    };
                    &&& !self.reads_fail()
                    &&& !self.reads_stall()
                    &&& offer_pairs(o) == (match only {
                        Some(want) => narrowed(all, want@),
                        None => all,
                    })
                },
            },
    {
        if self.fail_reads {
            return Err("simulated clipboard read failure".to_string());
        }
        if self.reads_blocked {
            return Ok(MockRead::Stalled);
        }
        let offer = match self.get(kind) {
            Some(o) => o,
            None => new_offer(),
        };
        Ok(
            MockRead::Content(
                match only {
                    Some(want) => narrow(&offer, want),
                    None => offer,
                },
            ),
        )
    }

    /// Writes to a selection, as a network update does: counted, stored, and told to every
    /// watcher.
    pub fn write_offer(&mut self, kind: SelectionKind, offer: Offer) -> (r: Result<(), String>)
        requires
            old(self).writes() < u64::MAX,
        ensures
            final(self).same_switches(*old(self)),
            match r {
                Err(e) => {
                    &&& old(self).writes_fail()
                    &&& e@ == "simulated clipboard write failure"@
                    &&& *final(self) == *old(self)
                },
                Ok(()) => {
                    &&& !old(self).writes_fail()
                    &&& final(self).writes() == old(self).writes() + 1
                    &&& final(self).queues() == told(old(self).queues(), EventView::Changed(kind))
                    &&& forall|k: SelectionKind|
                        (#[trigger] final(self).content(k)) == (if k == kind {
                            Some(offer_pairs(offer))
                        } else {
                            old(self).content(k)
                        })
                },
            },
    {
        if self.fail_writes {
            return Err("simulated clipboard write failure".to_string());
        }
        self.writes = self.writes + 1;
        self.local_copy(kind, offer);
        Ok(())
    }
}

} // verus!
