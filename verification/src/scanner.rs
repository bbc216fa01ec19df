//! The walk over a wallet's signatures, newest first, that stops where the
//! entries fall behind the time window.

use vstd::prelude::*;
use crate::models::views;
use crate::window::TimeWindow;

verus! {

/// One entry of a wallet's history: the signature of a transaction and, where
/// the ledger knows it, the second in which its block was produced.
#[derive(Debug, PartialEq, Eq)]
pub struct SignatureEntry {
    pub signature: String,
    pub block_time: Option<i64>,
}

/// What a `SignatureEntry` stands for in contracts.
pub ghost struct EntryView {
    pub signature: Seq<char>,
    pub block_time: Option<int>,
}

impl View for SignatureEntry {
    type V = EntryView;

    open spec fn view(&self) -> EntryView {
        EntryView {
            signature: self.signature@,
            block_time: match self.block_time {
                Some(t) => Some(t as int),
                None => None,
            },
        }
    }
}

impl Clone for SignatureEntry {
    fn clone(&self) -> (copy: Self)
        ensures
            copy@ == self@,
    {
        SignatureEntry { signature: self.signature.clone(), block_time: self.block_time }
    }
}

/// How an entry stands to a time window.
#[derive(Clone, Copy, Debug, PartialEq, Eq, Structural)]
pub enum Standing {
    /// The entry has no time: it cannot be placed, and is passed over.
    Untimed,
    /// The entry is older than the window: so is everything after it.
    Older,
    /// The entry is newer than the window, and is passed over.
    Newer,
    /// The entry lies in the window.
    Inside,
}

/// How `entry` stands to `window`.
pub open spec fn standing_of(window: TimeWindow, entry: EntryView) -> Standing {
    match entry.block_time {
        None => Standing::Untimed,
        Some(time) => if time < window.start {
            Standing::Older
        } else if time >= window.end {
            Standing::Newer
        } else {
            Standing::Inside
        },
    }
}

/// The position of the first entry at or after `start` that is older than the
/// window, and the length of the log where there is none.
pub open spec fn end_from(window: TimeWindow, log: Seq<EntryView>, start: int) -> int
    decreases log.len() - start,
{
    if start < 0 || start >= log.len() {
        log.len() as int
    } else if standing_of(window, log[start]) == Standing::Older {
        start
    } else {
        end_from(window, log, start + 1)
    }
}

/// Where a scan of `log` ends: at the first entry that is older than the
/// window, or behind the last entry.
pub open spec fn scan_end(window: TimeWindow, log: Seq<EntryView>) -> int {
    end_from(window, log, 0)
}

/// The entries in the window among the first `count` of `log`, in their order.
pub open spec fn inside_upto(window: TimeWindow, log: Seq<EntryView>, count: nat) -> Seq<EntryView>
    decreases count,
{
    if count == 0 {
        Seq::empty()
    } else {
        let earlier = inside_upto(window, log, (count - 1) as nat);
        if standing_of(window, log[count - 1]) == Standing::Inside {
            earlier.push(log[count - 1])
        } else {
            earlier
        }
    }
}

/// What a scan of `log` yields: the entries in the window that stand before
/// the first entry older than the window, in the order of the log.
pub open spec fn scanned(window: TimeWindow, log: Seq<EntryView>) -> Seq<EntryView> {
    inside_upto(window, log, scan_end(window, log) as nat)
}

/// How `entry` stands to `window`.
pub fn standing(window: &TimeWindow, entry: &SignatureEntry) -> (place: Standing)
    ensures
        place == standing_of(*window, entry@),
{
    match entry.block_time {
        None => Standing::Untimed,
        Some(time) => if time < window.start {
            Standing::Older
        } else if time >= window.end {
            Standing::Newer
        } else {
            Standing::Inside
        },
    }
}

/// What the scan of one page of a log gave.
#[derive(Debug, PartialEq, Eq)]
pub struct PageScan {
    /// The entries of the page that the scan yields.
    pub entries: Vec<SignatureEntry>,
    /// Whether the page held an entry older than the window.
    pub ended: bool,
}

/// Scans one page of a log that runs from the newest entry to the oldest.
/// Every entry that is yielded lies in the window.
pub fn scan_page(window: &TimeWindow, page: &Vec<SignatureEntry>) -> (found: PageScan)
    ensures
        views(found.entries@) == scanned(*window, views(page@)),
        found.ended == (scan_end(*window, views(page@)) < page.len()),
        forall|i: int|
            0 <= i < found.entries.len() ==> (#[trigger] found.entries[i]).block_time is Some
                && window.holds(found.entries[i].block_time->0 as int),
{
    let ghost log = views(page@);
    let mut entries: Vec<SignatureEntry> = Vec::new();
    let mut i: usize = 0;
    while i < page.len()
        invariant
            i <= page.len(),
            log == views(page@),
            scan_end(*window, log) == end_from(*window, log, i as int),
            views(entries@) == inside_upto(*window, log, i as nat),
        decreases page.len() - i,
    {
        match standing(window, &page[i]) {
            Standing::Older => {
                proof {
                    lemma_yielded_lie_inside(*window, log, entries@);
                }
                return PageScan { entries, ended: true };
            },
            Standing::Inside => {
                entries.push(page[i].clone());
            },
            _ => {},
        }
        i += 1;
    }
    proof {
        lemma_yielded_lie_inside(*window, log, entries@);
    }
    PageScan { entries, ended: false }
}

/// Entries whose views are what a scan yields lie in the window.
proof fn lemma_yielded_lie_inside(
    window: TimeWindow,
    log: Seq<EntryView>,
    entries: Seq<SignatureEntry>,
)
    requires
        views(entries) == scanned(window, log),
    ensures
        forall|i: int|
            0 <= i < entries.len() ==> (#[trigger] entries[i]).block_time is Some && window.holds(
                entries[i].block_time->0 as int,
            ),
{
    assert forall|i: int| 0 <= i < entries.len() implies (#[trigger] entries[i]).block_time is Some
        && window.holds(entries[i].block_time->0 as int) by {
        assert(views(entries)[i] == entries[i]@);
        law_scanned_entries_lie_in_the_window(window, log, i);
    }
}

/// What a scanner asks of whoever fetches the pages.
#[derive(Debug, PartialEq, Eq)]
pub enum ScanRequest {
    /// The next page is wanted: the entries that follow the signature
    /// `before`, or the newest ones where there is none.
    Page { before: Option<String> },
    /// Nothing more is wanted.
    Finished,
}

/// What a `ScanRequest` stands for in contracts.
pub ghost enum RequestView {
    Page { before: Option<Seq<char>> },
    Finished,
}

impl View for ScanRequest {
    type V = RequestView;

    open spec fn view(&self) -> RequestView {
        match self {
            ScanRequest::Page { before: Some(signature) } => RequestView::Page {
                before: Some(signature@),
            },
            ScanRequest::Page { before: None } => RequestView::Page { before: None },
            ScanRequest::Finished => RequestView::Finished,
        }
    }
}

/// A scan in progress over a log that arrives page by page, newest entries
/// first. It asks for pages until one holds an entry older than the window or
/// is empty.
pub struct SignatureScanner {
    window: TimeWindow,
    cursor: Option<String>,
    finished: bool,
    seen: Ghost<Seq<EntryView>>,
}

impl SignatureScanner {
    /// The window that the scan covers.
    pub closed spec fn window(&self) -> TimeWindow {
        self.window
    }

    /// The entries of all pages taken so far, in the order of their arrival.
    pub closed spec fn seen(&self) -> Seq<EntryView> {
        self.seen@
    }

    /// Whether the scan is over.
    pub closed spec fn is_finished(&self) -> bool {
        self.finished
    }

    /// The signature that the next page is to follow.
    pub closed spec fn cursor(&self) -> Option<Seq<char>> {
        match self.cursor {
            Some(signature) => Some(signature@),
            None => None,
        }
    }

    /// A scan goes on only while no entry older than the window has arrived,
    /// and the next page follows the last entry taken.
    #[verifier::type_invariant]
    closed spec fn well_formed(&self) -> bool {
        &&& !self.finished ==> scan_end(self.window, self.seen@) == self.seen@.len()
        &&& self.cursor() == if self.seen@.len() == 0 {
            None
        } else {
            Some(self.seen@.last().signature)
        }
    }

    /// A scan of `window` that has taken no page yet.
    pub fn new(window: TimeWindow) -> (scanner: SignatureScanner)
        ensures
            scanner.window() == window,
            scanner.seen() == Seq::<EntryView>::empty(),
            !scanner.is_finished(),
            scanner.cursor() is None,
    {
        SignatureScanner { window, cursor: None, finished: false, seen: Ghost(Seq::empty()) }
    }

    /// Whether the scan is over.
    pub fn finished(&self) -> (over: bool)
        ensures
            over == self.is_finished(),
    {
        self.finished
    }

    /// What the scan needs next: nothing once it is over, else the page that
    /// follows the last entry taken.
    pub fn next_request(&self) -> (request: ScanRequest)
        ensures
            request@ == if self.is_finished() {
                RequestView::Finished
            } else {
                RequestView::Page { before: self.cursor() }
            },
            !self.is_finished() ==> self.cursor() == if self.seen().len() == 0 {
                None
            } else {
                Some(self.seen().last().signature)
            },
    {
        proof {
            use_type_invariant(self);
        }
        if self.finished {
            ScanRequest::Finished
        } else {
            match &self.cursor {
                Some(signature) => ScanRequest::Page { before: Some(signature.clone()) },
                None => ScanRequest::Page { before: None },
            }
        }
    }

    /// Takes the page that was asked for and gives the entries of it that the
    /// scan yields. An empty page, or one with an entry older than the
    /// window, ends the scan. A scan that is over takes nothing.
    pub fn accept_page(&mut self, page: &Vec<SignatureEntry>) -> (entries: Vec<SignatureEntry>)
        ensures
            final(self).window() == old(self).window(),
            old(self).is_finished() ==> {
                &&& final(self).is_finished()
                &&& final(self).seen() == old(self).seen()
                &&& final(self).cursor() == old(self).cursor()
                &&& entries@.len() == 0
            },
            !old(self).is_finished() ==> {
                &&& final(self).seen() == old(self).seen() + views(page@)
                &&& views(entries@) == scanned(old(self).window(), views(page@))
                &&& final(self).is_finished() == (page.len() == 0 || scan_end(
                    old(self).window(),
                    views(page@),
                ) < page.len())
            },
            scanned(final(self).window(), final(self).seen()) == scanned(
                old(self).window(),
                old(self).seen(),
            ) + views(entries@),
    {
        proof {
            use_type_invariant(&*self);
        }
        if self.finished {
            return Vec::new();
        }
        let found = scan_page(&self.window, page);
        proof {
            law_scan_by_pages(self.window, self.seen@, views(page@));
            lemma_end_from(self.window, views(page@), 0);
        }
        let ghost taken = self.seen@ + views(page@);
        if page.len() == 0 {
            *self = SignatureScanner {
                window: self.window,
                cursor: self.cursor.clone(),
                finished: true,
                seen: Ghost(taken),
            };
        } else {
            *self = SignatureScanner {
                window: self.window,
                cursor: Some(page[page.len() - 1].signature.clone()),
                finished: found.ended,
                seen: Ghost(taken),
            };
        }
        found.entries
    }
}

/// The end that `end_from` finds lies at or after `start`; no entry between
/// the two is older than the window, and the entry at the end is, where there
/// is one.
pub proof fn lemma_end_from(window: TimeWindow, log: Seq<EntryView>, start: int)
    requires
        0 <= start <= log.len(),
    ensures
        start <= end_from(window, log, start) <= log.len(),
        forall|j: int|
            start <= j < end_from(window, log, start) ==> standing_of(window, #[trigger] log[j])
                != Standing::Older,
        end_from(window, log, start) < log.len() ==> standing_of(
            window,
            log[end_from(window, log, start)],
        ) == Standing::Older,
    decreases log.len() - start,
{
    if start < log.len() && standing_of(window, log[start]) != Standing::Older {
        lemma_end_from(window, log, start + 1);
    }
}

/// A scan ends at `end` where no entry before `end` is older than the window
/// and the entry at `end` is, or the log ends there.
pub proof fn lemma_scan_end_is(window: TimeWindow, log: Seq<EntryView>, end: int)
    requires
        0 <= end <= log.len(),
        forall|j: int| 0 <= j < end ==> standing_of(window, #[trigger] log[j]) != Standing::Older,
        end < log.len() ==> standing_of(window, log[end]) == Standing::Older,
    ensures
        scan_end(window, log) == end,
{
    lemma_end_from(window, log, 0);
}

/// The entries in the window among the first `count` are the same in two logs
/// that agree on their first `count` entries.
pub proof fn lemma_inside_upto_prefix(
    window: TimeWindow,
    log: Seq<EntryView>,
    other: Seq<EntryView>,
    count: nat,
)
    requires
        count <= log.len(),
        count <= other.len(),
        forall|j: int| 0 <= j < count ==> log[j] == other[j],
    ensures
        inside_upto(window, log, count) == inside_upto(window, other, count),
    decreases count,
{
    if count > 0 {
        lemma_inside_upto_prefix(window, log, other, (count - 1) as nat);
    }
}

proof fn lemma_inside_upto_append(
    window: TimeWindow,
    first: Seq<EntryView>,
    second: Seq<EntryView>,
    count: nat,
)
    requires
        count <= second.len(),
    ensures
        inside_upto(window, first + second, first.len() + count) == inside_upto(
            window,
            first,
            first.len(),
        ) + inside_upto(window, second, count),
    decreases count,
{
    if count == 0 {
        lemma_inside_upto_prefix(window, first + second, first, first.len());
    } else {
        lemma_inside_upto_append(window, first, second, (count - 1) as nat);
    }
}

/// A log may be scanned page by page: while no entry older than the window
/// has come, what the scan of the next page yields follows what was yielded
/// before; once one has come, later pages add nothing.
pub proof fn law_scan_by_pages(window: TimeWindow, taken: Seq<EntryView>, page: Seq<EntryView>)
    ensures
        scan_end(window, taken) < taken.len() ==> scanned(window, taken + page) == scanned(
            window,
            taken,
        ),
        scan_end(window, taken) == taken.len() ==> scanned(window, taken + page) == scanned(
            window,
            taken,
        ) + scanned(window, page),
        scan_end(window, taken) == taken.len() ==> scan_end(window, taken + page) == taken.len()
            + scan_end(window, page),
{
    lemma_end_from(window, taken, 0);
    lemma_end_from(window, page, 0);
    let whole = taken + page;
    let end = scan_end(window, taken);
    if end < taken.len() {
        lemma_scan_end_is(window, whole, end);
        lemma_inside_upto_prefix(window, whole, taken, end as nat);
    } else {
        let more = scan_end(window, page);
        lemma_scan_end_is(window, whole, taken.len() + more);
        lemma_inside_upto_append(window, taken, page, more as nat);
    }
}

/// Every entry that a scan yields has a time, and the time lies in the
/// window.
pub proof fn law_scanned_entries_lie_in_the_window(
    window: TimeWindow,
    log: Seq<EntryView>,
    i: int,
)
    requires
        0 <= i < scanned(window, log).len(),
    ensures
        scanned(window, log)[i].block_time is Some,
        window.holds(scanned(window, log)[i].block_time->0),
{
    lemma_end_from(window, log, 0);
    lemma_inside_origin(window, log, scan_end(window, log) as nat, i);
}

/// Every entry in the window among the first `count` is one of those
/// entries.
proof fn lemma_inside_origin(window: TimeWindow, log: Seq<EntryView>, count: nat, i: int)
    requires
        count <= log.len(),
        0 <= i < inside_upto(window, log, count).len(),
    ensures
        exists|j: int|
            0 <= j < count && standing_of(window, #[trigger] log[j]) == Standing::Inside && log[j]
                == inside_upto(window, log, count)[i],
    decreases count,
{
    if i < inside_upto(window, log, (count - 1) as nat).len() {
        lemma_inside_origin(window, log, (count - 1) as nat, i);
    }
}

/// Every entry that a scan yields stands in the log before the first entry
/// that is older than the window.
pub proof fn law_scanned_entries_come_before_the_end(
    window: TimeWindow,
    log: Seq<EntryView>,
    i: int,
)
    requires
        0 <= i < scanned(window, log).len(),
    ensures
        exists|j: int|
            0 <= j < scan_end(window, log) && #[trigger] log[j] == scanned(window, log)[i],
{
    lemma_end_from(window, log, 0);
    lemma_inside_origin(window, log, scan_end(window, log) as nat, i);
}

/// A scan stops at the first entry that is older than the window: whatever
/// the log holds from there on, the scan yields what it yields of the part
/// before.
pub proof fn law_scan_stops_at_older_entry(window: TimeWindow, log: Seq<EntryView>, at: int)
    requires
        0 <= at < log.len(),
        standing_of(window, log[at]) == Standing::Older,
    ensures
        scan_end(window, log) <= at,
        scanned(window, log) == scanned(window, log.take(at)),
{
    lemma_end_from(window, log, 0);
    let end = scan_end(window, log);
    let part = log.take(at);
    lemma_scan_end_is(window, part, end);
    lemma_inside_upto_prefix(window, log, part, end as nat);
}

} // verus!
