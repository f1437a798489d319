//! The sync engine's gateway to a clipboard: who put the content a read returned onto
//! the selection.

use crate::backoff::Nanos;
use crate::offer::{offer_pairs, Offer};
use crate::protocol::{content_digest, Hashed, SelectionKind};
use vstd::prelude::*;

verus! {

/// How long a read may take: a slow or unresponsive selection owner must not be able to
/// freeze the engine.
pub const READ_TIMEOUT: Nanos = 5_000_000_000;

/// Who put the content a read returned onto the selection.
#[derive(Debug, Clone, Copy, PartialEq, Eq, Structural)]
pub enum Origin {
    /// A genuine change: the user, or another application. Propagates.
    User,
    /// The watch echo of the engine's own write. Must not propagate.
    Echo,
}

/// The engine's clipboard gateway. Every write is recorded before it is made, and the
/// record is consumed by the one read that classifies what came back.
pub struct ClipboardIo {
    /// Content the engine itself wrote to the clipboard, awaiting its echo.
    clipboard: Option<[u8; 32]>,
    /// Content the engine itself wrote to the selection, awaiting its echo.
    selection: Option<[u8; 32]>,
}

/// Whether two hashes are the same.
fn same_hash(a: &[u8; 32], b: &[u8; 32]) -> (r: bool)
    ensures
        r == (a@ == b@),
{
    let mut i: usize = 0;
    while i < 32
        invariant
            i <= 32,
            forall|k: int| 0 <= k < i ==> a@[k] == b@[k],
        decreases 32 - i,
    {
        if a[i] != b[i] {
            return false;
        }
        i += 1;
    }
    proof {
        assert(a@ =~= b@);
    }
    true
}

impl ClipboardIo {
    /// The hash of the content that was written to a selection and whose echo has not
    /// come back yet.
    pub closed spec fn awaiting(&self, kind: SelectionKind) -> Option<Seq<u8>> {
        match kind {
            SelectionKind::Clipboard => match self.clipboard {
                Some(h) => Some(h@),
                None => None,
            },
            SelectionKind::Selection => match self.selection {
                Some(h) => Some(h@),
                None => None,
            },
        }
    }

    /// A gateway through which nothing was written yet.
    pub fn new() -> (r: ClipboardIo)
        ensures
            forall|kind: SelectionKind| (#[trigger] r.awaiting(kind)) is None,
    {
        ClipboardIo { clipboard: None, selection: None }
    }

    fn set(&mut self, kind: SelectionKind, hash: Option<[u8; 32]>)
        ensures
            final(self).awaiting(kind) == (match hash {
                Some(h) => Some(h@),
                None => None,
            }),
            forall|other: SelectionKind|
                other != kind ==> (#[trigger] final(self).awaiting(other)) == old(self).awaiting(
                    other,
                ),
    {
        match kind {
            SelectionKind::Clipboard => {
                self.clipboard = hash;
            },
            SelectionKind::Selection => {
                self.selection = hash;
            },
        }
    }

    /// Records that `content` is about to be written to `kind`, so that the watch echo it
    /// provokes is dropped rather than propagated. The record comes before the write,
    /// because the echo can arrive as soon as the write lands.
    pub fn write(&mut self, kind: SelectionKind, content: &Hashed)
        ensures
            final(self).awaiting(kind) == Some(content_digest(content@)),
            forall|other: SelectionKind|
                other != kind ==> (#[trigger] final(self).awaiting(other)) == old(self).awaiting(
                    other,
                ),
    {
        self.set(kind, Some(content.hash()));
    }

    /// Takes the outcome of the write that was recorded last. The record of a write that
    /// failed is taken back, since no echo follows it. Returns whether it succeeded.
    pub fn written(&mut self, kind: SelectionKind, ok: bool) -> (r: bool)
        ensures
            r == ok,
            ok ==> *final(self) == *old(self),
            !ok ==> final(self).awaiting(kind) is None,
            forall|other: SelectionKind|
                other != kind ==> (#[trigger] final(self).awaiting(other)) == old(self).awaiting(
                    other,
                ),
    {
        if !ok {
            self.set(kind, None);
        }
        ok
    }

    /// The content that a read gave, which is `None` on error or timeout. Leaves every
    /// record in place.
    pub fn read(&self, read: Option<Offer>) -> (r: Option<Hashed>)
        ensures
            match (read, r) {
                (Some(o), Some(h)) => h@ == offer_pairs(o),
                (None, None) => true,
                _ => false,
            },
    {
        match read {
            Some(offer) => Some(Hashed::new(offer)),
            None => None,
        }
    }

    /// The content that a read of `kind` gave, classified against the record of the
    /// engine's own write, which this consumes. A read that failed consumes nothing.
    pub fn read_classified(&mut self, kind: SelectionKind, read: Option<Offer>) -> (r: Option<
        (Hashed, Origin),
    >)
        ensures
            read is None ==> r is None && *final(self) == *old(self),
            read matches Some(o) ==> {
                &&& r matches Some((h, origin)) && h@ == offer_pairs(o) && origin == origin_of(
                    old(self).awaiting(kind),
                    h@,
                )
                &&& final(self).awaiting(kind) is None
            },
            forall|other: SelectionKind|
                other != kind ==> (#[trigger] final(self).awaiting(other)) == old(self).awaiting(
                    other,
                ),
    {
        let raw = match self.read(read) {
            Some(h) => h,
            None => {
                return None;
            },
        };
        let marker = match kind {
            SelectionKind::Clipboard => self.clipboard,
            SelectionKind::Selection => self.selection,
        };
        self.set(kind, None);
        let origin = match marker {
            Some(written) => {
                let hash = raw.hash();
                if same_hash(&written, &hash) {
                    Origin::Echo
                } else {
                    Origin::User
                }
            },
            None => Origin::User,
        };
        Some((raw, origin))
    }
}

/// Where content comes from, given the hash of what was written and not seen again
/// yet.
pub open spec fn origin_of(awaiting: Option<Seq<u8>>, pairs: Seq<crate::offer::Pair>) -> Origin {
    if awaiting == Some(content_digest(pairs)) {
        Origin::Echo
    } else {
        Origin::User
    }
}

/// Content that was written reads back as an echo, in whichever order the types come
/// back.
pub proof fn a_write_reads_back_as_an_echo(
    written: Seq<crate::offer::Pair>,
    read: Seq<crate::offer::Pair>,
)
    requires
        crate::offer::distinct_types(written),
        crate::offer::distinct_types(read),
        forall|p: crate::offer::Pair| written.contains(p) <==> read.contains(p),
    ensures
        origin_of(Some(content_digest(written)), read) == Origin::Echo,
{
    crate::protocol::content_hash_ignores_the_order(written, read);
}

/// Without a record, content is the user's: a record suppresses exactly one echo, and
/// the record of a failed write none.
pub proof fn without_a_record_content_is_the_users(read: Seq<crate::offer::Pair>)
    ensures
        origin_of(None, read) == Origin::User,
{
}

} // verus!
