//! A reconstruction that is driven from outside, one answer of the ledger at
//! a time. The session decides what is asked next; whoever holds the
//! connection asks it and hands the answer back.

use vstd::prelude::*;
use crate::aggregate::{aggregate, total, TransferSummary};
use crate::models::{views, TransferDirection, TransferView, USDCTransfer};
use crate::reconstruction::{collected_upto, entries_of, entry_transfers, reconstructed,
    transfers_of_entry, ItemView};
use crate::resolver::{answer_view, FetchedTransaction, FetchedView};
use crate::inference::law_amount_is_the_change;
use crate::resolver::{resolution_of, ResolutionView};
use crate::scanner::{inside_upto, law_scanned_entries_lie_in_the_window, lemma_end_from, scan_end,
    scanned, standing_of, EntryView, ScanRequest, SignatureEntry, SignatureScanner, Standing};
use crate::window::TimeWindow;

verus! {

/// What a session asks of the ledger.
#[derive(Debug, PartialEq, Eq)]
pub enum LedgerRequest {
    /// The page of signatures of the wallet that follows the signature
    /// `before`, or the newest page where there is none.
    Signatures { before: Option<String> },
    /// The transaction with this signature.
    Transaction { signature: String },
    /// Nothing more: the reconstruction is complete.
    Finished,
}

/// What a `LedgerRequest` stands for in contracts.
pub ghost enum LedgerRequestView {
    Signatures { before: Option<Seq<char>> },
    Transaction { signature: Seq<char> },
    Finished,
}

impl View for LedgerRequest {
    type V = LedgerRequestView;

    open spec fn view(&self) -> LedgerRequestView {
        match self {
            LedgerRequest::Signatures { before: Some(signature) } => LedgerRequestView::Signatures {
                before: Some(signature@),
            },
            LedgerRequest::Signatures { before: None } => LedgerRequestView::Signatures {
                before: None,
            },
            LedgerRequest::Transaction { signature } => LedgerRequestView::Transaction {
                signature: signature@,
            },
            LedgerRequest::Finished => LedgerRequestView::Finished,
        }
    }
}

/// What the first `count` entries give, each with the ledger's answer to the
/// lookup of its transaction, one after the other.
pub open spec fn gathered_upto(
    wallet: Seq<char>,
    mint: Seq<char>,
    entries: Seq<EntryView>,
    answers: Seq<Option<FetchedView>>,
    count: nat,
) -> Seq<TransferView>
    decreases count,
{
    if count == 0 {
        Seq::empty()
    } else {
        gathered_upto(wallet, mint, entries, answers, (count - 1) as nat) + entry_transfers(
            wallet,
            mint,
            entries[count - 1],
            answers[count - 1],
        )
    }
}

/// What the entries give that have been looked up: as many of them, from the
/// first on, as there are answers.
pub open spec fn gathered(
    wallet: Seq<char>,
    mint: Seq<char>,
    entries: Seq<EntryView>,
    answers: Seq<Option<FetchedView>>,
) -> Seq<TransferView> {
    gathered_upto(wallet, mint, entries, answers, answers.len())
}

/// What the first `count` entries give depends on those entries and their
/// answers alone.
pub proof fn lemma_gathered_prefix(
    wallet: Seq<char>,
    mint: Seq<char>,
    entries: Seq<EntryView>,
    answers: Seq<Option<FetchedView>>,
    other_entries: Seq<EntryView>,
    other_answers: Seq<Option<FetchedView>>,
    count: nat,
)
    requires
        count <= entries.len(),
        count <= other_entries.len(),
        count <= answers.len(),
        count <= other_answers.len(),
        forall|j: int| 0 <= j < count ==> entries[j] == other_entries[j],
        forall|j: int| 0 <= j < count ==> answers[j] == other_answers[j],
    ensures
        gathered_upto(wallet, mint, entries, answers, count) == gathered_upto(
            wallet,
            mint,
            other_entries,
            other_answers,
            count,
        ),
    decreases count,
{
    if count > 0 {
        lemma_gathered_prefix(
            wallet,
            mint,
            entries,
            answers,
            other_entries,
            other_answers,
            (count - 1) as nat,
        );
    }
}

/// A reconstruction in progress. It asks for the signatures page by page,
/// newest first, and for the transaction of every entry that lies in the
/// window, in the order of the entries, until a page holds an entry older
/// than the window or is empty.
pub struct ScanSession {
    wallet: String,
    mint: String,
    scanner: SignatureScanner,
    pending: Vec<SignatureEntry>,
    position: usize,
    records: Vec<USDCTransfer>,
    answers: Ghost<Seq<Option<FetchedView>>>,
}

impl ScanSession {
    /// The tracked wallet.
    pub closed spec fn wallet(&self) -> Seq<char> {
        self.wallet@
    }

    /// The mint of the token.
    pub closed spec fn mint(&self) -> Seq<char> {
        self.mint@
    }

    /// The window that the reconstruction covers.
    pub closed spec fn window(&self) -> TimeWindow {
        self.scanner.window()
    }

    /// The entries of all pages taken so far, in the order of their arrival.
    pub closed spec fn seen(&self) -> Seq<EntryView> {
        self.scanner.seen()
    }

    /// The ledger's answers to the lookups made so far, in their order.
    pub closed spec fn answers(&self) -> Seq<Option<FetchedView>> {
        self.answers@
    }

    /// The transfers found so far.
    pub closed spec fn records(&self) -> Seq<TransferView> {
        views(self.records@)
    }

    /// Whether no further page will be asked for.
    pub closed spec fn pages_done(&self) -> bool {
        self.scanner.is_finished()
    }

    /// The signature that the next page is to follow.
    pub closed spec fn cursor(&self) -> Option<Seq<char>> {
        self.scanner.cursor()
    }

    /// The entries that the scan has yielded so far: those that are to be
    /// looked up.
    pub open spec fn yielded(&self) -> Seq<EntryView> {
        scanned(self.window(), self.seen())
    }

    /// What the session asks next: the transaction of the first yielded
    /// entry that has no answer yet; where every one has, the next page; and
    /// nothing once the pages are done.
    pub open spec fn wanted(&self) -> LedgerRequestView {
        if self.answers().len() < self.yielded().len() {
            LedgerRequestView::Transaction {
                signature: self.yielded()[self.answers().len() as int].signature,
            }
        } else if self.pages_done() {
            LedgerRequestView::Finished
        } else {
            LedgerRequestView::Signatures { before: self.cursor() }
        }
    }

    /// The entries that wait for their lookup are the yielded entries without
    /// an answer, and the transfers found are those of the entries with one.
    #[verifier::type_invariant]
    closed spec fn well_formed(&self) -> bool {
        let yielded = scanned(self.scanner.window(), self.scanner.seen());
        &&& self.position <= self.pending@.len()
        &&& self.answers@.len() + (self.pending@.len() - self.position) == yielded.len()
        &&& forall|k: int|
            self.position <= k < self.pending@.len() ==> (#[trigger] self.pending@[k])@
                == yielded[self.answers@.len() + k - self.position]
        &&& views(self.records@) == gathered(self.wallet@, self.mint@, yielded, self.answers@)
    }

    /// A session for `tracked_wallet` and `mint` over `window` that has asked
    /// nothing yet.
    pub fn new(tracked_wallet: String, mint: String, window: TimeWindow) -> (session: ScanSession)
        ensures
            session.wallet() == tracked_wallet@,
            session.mint() == mint@,
            session.window() == window,
            session.seen() == Seq::<EntryView>::empty(),
            session.answers() == Seq::<Option<FetchedView>>::empty(),
            session.records() == Seq::<TransferView>::empty(),
            !session.pages_done(),
            session.cursor() is None,
    {
        let scanner = SignatureScanner::new(window);
        let records: Vec<USDCTransfer> = Vec::new();
        assert(views(records@) == Seq::<TransferView>::empty());
        ScanSession {
            wallet: tracked_wallet,
            mint,
            scanner,
            pending: Vec::new(),
            position: 0,
            records,
            answers: Ghost(Seq::empty()),
        }
    }

    /// What is to be asked of the ledger next.
    pub fn next_request(&self) -> (request: LedgerRequest)
        ensures
            request@ == self.wanted(),
            self.records() == gathered(self.wallet(), self.mint(), self.yielded(), self.answers()),
            self.answers().len() <= self.yielded().len(),
    {
        proof {
            use_type_invariant(self);
        }
        if self.position < self.pending.len() {
            LedgerRequest::Transaction { signature: self.pending[self.position].signature.clone() }
        } else {
            match self.scanner.next_request() {
                ScanRequest::Page { before } => LedgerRequest::Signatures { before },
                ScanRequest::Finished => LedgerRequest::Finished,
            }
        }
    }

    /// Takes the page of signatures that was asked for. A page that was not
    /// asked for, because a lookup is due or the pages are done, is set aside.
    pub fn accept_signatures(self, page: &Vec<SignatureEntry>) -> (next: ScanSession)
        ensures
            next.wallet() == self.wallet(),
            next.mint() == self.mint(),
            next.window() == self.window(),
            next.answers() == self.answers(),
            next.records() == self.records(),
            self.wanted() is Signatures ==> {
                &&& next.seen() == self.seen() + views(page@)
                &&& next.yielded() == self.yielded() + scanned(self.window(), views(page@))
                &&& next.pages_done() == (page.len() == 0 || scan_end(
                    self.window(),
                    views(page@),
                ) < page.len())
            },
            !(self.wanted() is Signatures) ==> {
                &&& next.seen() == self.seen()
                &&& next.pages_done() == self.pages_done()
                &&& next.cursor() == self.cursor()
            },
    {
        proof {
            use_type_invariant(&self);
        }
        if self.position < self.pending.len() || self.scanner.finished() {
            return self;
        }
        let ghost before = scanned(self.scanner.window(), self.scanner.seen());
        let ScanSession { wallet, mint, scanner, pending, position, records, answers } = self;
        let mut scanner = scanner;
        let entries = scanner.accept_page(page);
        proof {
            let after = scanned(scanner.window(), scanner.seen());
            lemma_gathered_prefix(wallet@, mint@, before, answers@, after, answers@, answers@.len());
            assert forall|k: int| 0 <= k < entries@.len() implies (#[trigger] entries@[k])@
                == after[answers@.len() + k] by {}
        }
        ScanSession { wallet, mint, scanner, pending: entries, position: 0, records, answers }
    }

    /// Takes the ledger's answer to the lookup that was asked for: the
    /// transaction, or nothing where the ledger does not have it. An answer
    /// that was not asked for is set aside.
    pub fn accept_transaction(self, fetched: &Option<FetchedTransaction>) -> (next: ScanSession)
        ensures
            next.wallet() == self.wallet(),
            next.mint() == self.mint(),
            next.window() == self.window(),
            next.seen() == self.seen(),
            next.pages_done() == self.pages_done(),
            next.cursor() == self.cursor(),
            self.wanted() is Transaction ==> {
                &&& next.answers() == self.answers().push(answer_view(*fetched))
                &&& next.records() == self.records() + entry_transfers(
                    self.wallet(),
                    self.mint(),
                    self.yielded()[self.answers().len() as int],
                    answer_view(*fetched),
                )
            },
            !(self.wanted() is Transaction) ==> {
                &&& next.answers() == self.answers()
                &&& next.records() == self.records()
            },
    {
        proof {
            use_type_invariant(&self);
        }
        if self.position >= self.pending.len() {
            return self;
        }
        let ghost yielded = scanned(self.scanner.window(), self.scanner.seen());
        let ScanSession { wallet, mint, scanner, pending, position, records, answers } = self;
        let mut records = records;
        let ghost earlier = views(records@);
        let mut found = transfers_of_entry(&wallet, &mint, &pending[position], fetched);
        let ghost added = views(found@);
        records.append(&mut found);
        let ghost longer = answers@.push(answer_view(*fetched));
        proof {
            assert(views(records@) == earlier + added);
            lemma_gathered_prefix(wallet@, mint@, yielded, answers@, yielded, longer, answers@.len());
        }
        ScanSession {
            wallet,
            mint,
            scanner,
            pending,
            position: position + 1,
            records,
            answers: Ghost(longer),
        }
    }

    /// Whether nothing more is to be asked.
    pub fn finished(&self) -> (over: bool)
        ensures
            over == (self.wanted() is Finished),
    {
        proof {
            use_type_invariant(self);
        }
        self.position >= self.pending.len() && self.scanner.finished()
    }

    /// Ends the session and sums up the transfers found.
    pub fn summary(self) -> (summary: TransferSummary)
        ensures
            views(summary.records@) == self.records(),
            self.records() == gathered(self.wallet(), self.mint(), self.yielded(), self.answers()),
            summary.total_in == total(self.records(), TransferDirection::Incoming),
            summary.total_out == total(self.records(), TransferDirection::Outgoing),
            summary.net.well_formed(),
            summary.net.value() == summary.total_in - summary.total_out,
    {
        proof {
            use_type_invariant(&self);
        }
        aggregate(self.records)
    }
}

/// The items in the window among the first `count` of a recorded history, in
/// their order.
pub open spec fn looked_up_upto(window: TimeWindow, ledger: Seq<ItemView>, count: nat) -> Seq<
    ItemView,
>
    decreases count,
{
    if count == 0 {
        Seq::empty()
    } else {
        let earlier = looked_up_upto(window, ledger, (count - 1) as nat);
        if standing_of(window, ledger[count - 1].entry) == Standing::Inside {
            earlier.push(ledger[count - 1])
        } else {
            earlier
        }
    }
}

/// The items of a recorded history whose transactions a scan looks up: those
/// in the window that stand before the first entry older than the window.
pub open spec fn looked_up(window: TimeWindow, ledger: Seq<ItemView>) -> Seq<ItemView> {
    looked_up_upto(window, ledger, scan_end(window, entries_of(ledger)) as nat)
}

/// The ledger's answers that a recorded history holds, item by item.
pub open spec fn answers_of(items: Seq<ItemView>) -> Seq<Option<FetchedView>> {
    Seq::new(items.len(), |i: int| items[i].transaction)
}

proof fn lemma_looked_up(
    wallet: Seq<char>,
    mint: Seq<char>,
    window: TimeWindow,
    ledger: Seq<ItemView>,
    count: nat,
)
    requires
        count <= ledger.len(),
    ensures
        entries_of(looked_up_upto(window, ledger, count)) == inside_upto(
            window,
            entries_of(ledger),
            count,
        ),
        gathered(
            wallet,
            mint,
            entries_of(looked_up_upto(window, ledger, count)),
            answers_of(looked_up_upto(window, ledger, count)),
        ) == collected_upto(wallet, mint, window, ledger, count),
    decreases count,
{
    let kept = looked_up_upto(window, ledger, count);
    if count > 0 {
        lemma_looked_up(wallet, mint, window, ledger, (count - 1) as nat);
        let earlier = looked_up_upto(window, ledger, (count - 1) as nat);
        if standing_of(window, ledger[count - 1].entry) == Standing::Inside {
            lemma_gathered_prefix(
                wallet,
                mint,
                entries_of(earlier),
                answers_of(earlier),
                entries_of(kept),
                answers_of(kept),
                earlier.len(),
            );
        }
    }
}

/// A session that is fed from a recorded history finds what the
/// reconstruction of that history finds: the entries that the scan of the
/// history yields are those of the items that are looked up, and what they
/// give with the answers that the history holds for them is what the history
/// holds.
pub proof fn law_session_follows_the_history(
    wallet: Seq<char>,
    mint: Seq<char>,
    window: TimeWindow,
    ledger: Seq<ItemView>,
)
    ensures
        scanned(window, entries_of(ledger)) == entries_of(looked_up(window, ledger)),
        gathered(
            wallet,
            mint,
            scanned(window, entries_of(ledger)),
            answers_of(looked_up(window, ledger)),
        ) == reconstructed(wallet, mint, window, ledger),
{
    lemma_end_from(window, entries_of(ledger), 0);
    lemma_looked_up(wallet, mint, window, ledger, scan_end(window, entries_of(ledger)) as nat);
}

/// Every transfer that the first `count` entries give is a transfer of one
/// of those entries.
proof fn lemma_gathered_origin(
    wallet: Seq<char>,
    mint: Seq<char>,
    entries: Seq<EntryView>,
    answers: Seq<Option<FetchedView>>,
    count: nat,
    i: int,
)
    requires
        0 <= i < gathered_upto(wallet, mint, entries, answers, count).len(),
    ensures
        exists|j: int, k: int|
            0 <= j < count && 0 <= k < entry_transfers(wallet, mint, entries[j], answers[j]).len()
                && #[trigger] entry_transfers(wallet, mint, entries[j], answers[j])[k]
                == gathered_upto(wallet, mint, entries, answers, count)[i],
    decreases count,
{
    let all = gathered_upto(wallet, mint, entries, answers, count);
    let earlier = gathered_upto(wallet, mint, entries, answers, (count - 1) as nat);
    if i < earlier.len() {
        lemma_gathered_origin(wallet, mint, entries, answers, (count - 1) as nat, i);
    } else {
        let k = i - earlier.len();
        assert(entry_transfers(wallet, mint, entries[count - 1], answers[count - 1])[k] == all[i]);
    }
}

/// Whatever the ledger answers, every transfer that a session finds bears a
/// time that lies in the window, and moved some of the token.
pub proof fn law_session_transfers_lie_in_the_window(
    wallet: Seq<char>,
    mint: Seq<char>,
    window: TimeWindow,
    seen: Seq<EntryView>,
    answers: Seq<Option<FetchedView>>,
    i: int,
)
    requires
        answers.len() <= scanned(window, seen).len(),
        0 <= i < gathered(wallet, mint, scanned(window, seen), answers).len(),
    ensures
        window.holds(gathered(wallet, mint, scanned(window, seen), answers)[i].timestamp),
        gathered(wallet, mint, scanned(window, seen), answers)[i].amount > 0,
{
    let entries = scanned(window, seen);
    lemma_gathered_origin(wallet, mint, entries, answers, answers.len(), i);
    let (j, k) = choose|j: int, k: int|
        0 <= j < answers.len() && 0 <= k < entry_transfers(
            wallet,
            mint,
            entries[j],
            answers[j],
        ).len() && #[trigger] entry_transfers(wallet, mint, entries[j], answers[j])[k] == gathered(
            wallet,
            mint,
            entries,
            answers,
        )[i];
    law_scanned_entries_lie_in_the_window(window, seen, j);
    let time = entries[j].block_time->0;
    match resolution_of(entries[j].signature, time, answers[j], mint) {
        ResolutionView::Resolved(transaction) => {
            law_amount_is_the_change(wallet, mint, transaction, k);
        },
        _ => {},
    }
}

} // verus!
