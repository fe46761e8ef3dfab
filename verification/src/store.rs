//! Recording events: stores, and the format of the journal file.

use vstd::prelude::*;
use vstd::string::*;

use crate::datum::{lemma_views_push, opt_view, snapshot_all, views, Datum};
use crate::event::{EventEnvelope, EventEnvelopeView, RuntimeEvent, RuntimeEventView};
use crate::id::{EventId, ThreadId, TurnId};
use crate::text::{decimal_of, decimal_usize};

verus! {

/// Why events could not be recorded or read.
#[derive(Debug, PartialEq, Eq)]
pub enum StoreError {
    Io(String),
    Serialization(String),
    Corrupt { line: usize, message: String },
    Poisoned,
}

/// The model of [`StoreError`].
#[verifier::ext_equal]
pub ghost enum StoreErrorView {
    Io(Seq<char>),
    Serialization(Seq<char>),
    Corrupt { line: usize, message: Seq<char> },
    Poisoned,
}

impl View for StoreError {
    type V = StoreErrorView;

    open spec fn view(&self) -> StoreErrorView {
        match *self {
            StoreError::Io(x0) => StoreErrorView::Io(x0@),
            StoreError::Serialization(x0) => StoreErrorView::Serialization(x0@),
            StoreError::Corrupt { line, message } => StoreErrorView::Corrupt {
                line,
                message: message@,
            },
            StoreError::Poisoned => StoreErrorView::Poisoned,
        }
    }
}

impl Datum for StoreError {
    fn snapshot(&self) -> (copy: Self) {
        match self {
            StoreError::Io(x0) => StoreError::Io(x0.snapshot()),
            StoreError::Serialization(x0) => StoreError::Serialization(x0.snapshot()),
            StoreError::Corrupt { line, message } => StoreError::Corrupt {
                line: *line,
                message: message.snapshot(),
            },
            StoreError::Poisoned => StoreError::Poisoned,
        }
    }

    fn same(&self, other: &Self) -> (equal: bool) {
        match (self, other) {
            (StoreError::Io(x0), StoreError::Io(y0)) => x0.same(y0),
            (StoreError::Serialization(x0), StoreError::Serialization(y0)) => x0.same(y0),
            (
                StoreError::Corrupt { line: line_a, message: message_a },
                StoreError::Corrupt { line: line_b, message: message_b },
            ) => *line_a == *line_b && message_a.same(message_b),
            (StoreError::Poisoned, StoreError::Poisoned) => true,
            _ => false,
        }
    }
}

impl Clone for StoreError {
    fn clone(&self) -> (copy: Self)
        ensures
            copy@ == self@,
    {
        self.snapshot()
    }
}

/// The message of a store failure.
pub open spec fn store_error_text(error: StoreErrorView) -> Seq<char> {
    match error {
        StoreErrorView::Io(detail) => "event store I/O error: "@ + detail,
        StoreErrorView::Serialization(detail) => "event serialization error: "@ + detail,
        StoreErrorView::Corrupt { line, message } => {
            "corrupt event at line "@ + decimal_of(line as nat) + ": "@ + message
        },
        StoreErrorView::Poisoned => "event store lock was poisoned"@,
    }
}

impl StoreError {
    pub fn to_text(&self) -> (text: String)
        ensures
            text@ == store_error_text(self@),
    {
        match self {
            StoreError::Io(detail) => "event store I/O error: ".to_owned().concat(detail.as_str()),
            StoreError::Serialization(detail) => {
                "event serialization error: ".to_owned().concat(detail.as_str())
            },
            StoreError::Corrupt { line, message } => {
                "corrupt event at line ".to_owned().concat(decimal_usize(*line).as_str()).concat(
                    ": ",
                ).concat(message.as_str())
            },
            StoreError::Poisoned => "event store lock was poisoned".to_owned(),
        }
    }
}

/// The view of a store's answer.
pub open spec fn stored_view<T: View>(result: Result<T, StoreError>) -> Result<T::V, StoreErrorView> {
    match result {
        Ok(value) => Ok(value@),
        Err(error) => Err(error@),
    }
}

/// The identity and time that the host gives an event.
#[derive(Debug, PartialEq, Eq)]
pub struct EventStamp {
    pub id: EventId,
    pub at_unix_ms: u128,
}

/// The model of [`EventStamp`].
#[verifier::ext_equal]
pub ghost struct EventStampView {
    pub id: Seq<char>,
    pub at_unix_ms: u128,
}

impl View for EventStamp {
    type V = EventStampView;

    open spec fn view(&self) -> EventStampView {
        EventStampView {
            id: self.id@,
            at_unix_ms: self.at_unix_ms,
        }
    }
}

impl Datum for EventStamp {
    fn snapshot(&self) -> (copy: Self) {
        EventStamp {
            id: self.id.snapshot(),
            at_unix_ms: self.at_unix_ms,
        }
    }

    fn same(&self, other: &Self) -> (equal: bool) {
        self.id.same(&other.id) && self.at_unix_ms == other.at_unix_ms
    }
}

impl Clone for EventStamp {
    fn clone(&self) -> (copy: Self)
        ensures
            copy@ == self@,
    {
        self.snapshot()
    }
}

/// The record of an event.
pub open spec fn envelope_of(
    sequence: u64,
    stamp: EventStampView,
    thread_id: Seq<char>,
    turn_id: Option<Seq<char>>,
    event: RuntimeEventView,
) -> EventEnvelopeView {
    EventEnvelopeView {
        id: stamp.id,
        sequence,
        at_unix_ms: stamp.at_unix_ms,
        thread_id,
        turn_id,
        event,
    }
}

fn make_envelope(
    sequence: u64,
    stamp: EventStamp,
    thread_id: ThreadId,
    turn_id: Option<TurnId>,
    event: RuntimeEvent,
) -> (envelope: EventEnvelope)
    ensures
        envelope@ == envelope_of(sequence, stamp@, thread_id@, opt_view(turn_id), event@),
{
    EventEnvelope {
        id: stamp.id,
        sequence,
        at_unix_ms: stamp.at_unix_ms,
        thread_id,
        turn_id,
        event,
    }
}

/// The events of one thread, in the order in which they were recorded.
pub open spec fn thread_log(log: Seq<EventEnvelopeView>, thread_id: Seq<char>) -> Seq<EventEnvelopeView>
    decreases log.len(),
{
    if log.len() == 0 {
        Seq::empty()
    } else {
        let rest = thread_log(log.drop_last(), thread_id);
        if log.last().thread_id == thread_id {
            rest.push(log.last())
        } else {
            rest
        }
    }
}

/// A further event shows in its own thread and in no other.
pub proof fn lemma_thread_log_push(
    log: Seq<EventEnvelopeView>,
    envelope: EventEnvelopeView,
    thread_id: Seq<char>,
)
    ensures
        thread_log(log.push(envelope), thread_id) == (if envelope.thread_id == thread_id {
            thread_log(log, thread_id).push(envelope)
        } else {
            thread_log(log, thread_id)
        }),
{
    assert(log.push(envelope).drop_last() =~= log);
}

fn select_thread(events: &Vec<EventEnvelope>, thread_id: &ThreadId) -> (selected: Vec<EventEnvelope>)
    ensures
        views(selected@) == thread_log(views(events@), thread_id@),
{
    let ghost log = views(events@);
    let mut selected: Vec<EventEnvelope> = Vec::new();
    let mut index: usize = 0;
    assert(log.take(0) =~= Seq::empty());
    assert(views(selected@) =~= Seq::empty());
    while index < events.len()
        invariant
            index <= events@.len(),
            log == views(events@),
            views(selected@) == thread_log(log.take(index as int), thread_id@),
        decreases events@.len() - index,
    {
        proof {
            let grown = log.take(index as int + 1);
            assert(grown.drop_last() =~= log.take(index as int));
            assert(grown.last() == events@[index as int]@);
        }
        if events[index].thread_id.same(thread_id) {
            let copy = events[index].clone();
            proof {
                lemma_views_push(selected@, copy);
            }
            selected.push(copy);
        }
        index = index + 1;
    }
    assert(log.take(index as int) =~= log);
    selected
}

/// Where events are recorded. An append must not return success until the event
/// is durable according to the store's contract.
pub trait EventStore: Sized {
    /// All recorded events, in the order in which they were recorded.
    spec fn log(&self) -> Seq<EventEnvelopeView>;

    /// How many more events can be numbered.
    spec fn room(&self) -> nat;

    /// Whether the store may answer so when it is told to record an event, and be this
    /// store afterwards.
    spec fn appends(
        &self,
        stamp: EventStampView,
        thread_id: Seq<char>,
        turn_id: Option<Seq<char>>,
        event: RuntimeEventView,
        after: Self,
        recorded: Result<EventEnvelopeView, StoreErrorView>,
    ) -> bool;

    fn append(
        &mut self,
        stamp: EventStamp,
        thread_id: ThreadId,
        turn_id: Option<TurnId>,
        event: RuntimeEvent,
    ) -> (recorded: Result<EventEnvelope, StoreError>)
        requires
            old(self).room() > 0,
        ensures
            match recorded {
                Ok(envelope) => {
                    &&& final(self).log() == old(self).log().push(envelope@)
                    &&& final(self).room() + 1 == old(self).room()
                    &&& envelope@ == envelope_of(
                        envelope@.sequence,
                        stamp@,
                        thread_id@,
                        opt_view(turn_id),
                        event@,
                    )
                },
                Err(_) => final(self).log() == old(self).log(),
            },
            old(self).appends(
                stamp@,
                thread_id@,
                opt_view(turn_id),
                event@,
                *final(self),
                stored_view(recorded),
            ),
    ;

    fn load_thread(&self, thread_id: &ThreadId) -> (loaded: Result<Vec<EventEnvelope>, StoreError>)
        ensures
            loaded matches Ok(events) ==> views(events@) == thread_log(self.log(), thread_id@),
    ;
}

/// Whether the events are numbered in ascending order, below `next`.
pub open spec fn numbered(log: Seq<EventEnvelopeView>, next: u64) -> bool {
    &&& forall|i: int, j: int|
        0 <= i < j < log.len() ==> (#[trigger] log[i]).sequence < (#[trigger] log[j]).sequence
    &&& forall|i: int| 0 <= i < log.len() ==> (#[trigger] log[i]).sequence < next
}

/// Events held in memory, numbered from zero.
#[derive(Debug)]
pub struct MemoryEventStore {
    next_sequence: u64,
    events: Vec<EventEnvelope>,
}

impl MemoryEventStore {
    #[verifier::type_invariant]
    spec fn ascending_numbers(self) -> bool {
        numbered(views(self.events@), self.next_sequence)
    }

    /// The number that the next event gets.
    pub closed spec fn next(&self) -> u64 {
        self.next_sequence
    }

    pub fn new() -> (store: Self)
        ensures
            store.log() == Seq::<EventEnvelopeView>::empty(),
            store.next() == 0,
    {
        let store = MemoryEventStore { next_sequence: 0, events: Vec::new() };
        assert(store.log() =~= Seq::<EventEnvelopeView>::empty());
        store
    }

    /// All events, in the order in which they were recorded, with ascending numbers.
    pub fn all_events(&self) -> (events: Vec<EventEnvelope>)
        ensures
            views(events@) == self.log(),
            numbered(self.log(), self.next()),
    {
        proof {
            use_type_invariant(self);
        }
        snapshot_all(&self.events)
    }

    /// How many more events can be numbered.
    pub fn remaining(&self) -> (count: u64)
        ensures
            count as nat == self.room(),
    {
        u64::MAX - self.next_sequence
    }
}

impl EventStore for MemoryEventStore {
    closed spec fn log(&self) -> Seq<EventEnvelopeView> {
        views(self.events@)
    }

    closed spec fn room(&self) -> nat {
        (u64::MAX - self.next_sequence) as nat
    }

    /// The event is recorded under the next number.
    open spec fn appends(
        &self,
        stamp: EventStampView,
        thread_id: Seq<char>,
        turn_id: Option<Seq<char>>,
        event: RuntimeEventView,
        after: Self,
        recorded: Result<EventEnvelopeView, StoreErrorView>,
    ) -> bool {
        let envelope = envelope_of(self.next(), stamp, thread_id, turn_id, event);
        &&& recorded == Ok::<EventEnvelopeView, StoreErrorView>(envelope)
        &&& after.log() == self.log().push(envelope)
        &&& after.next() == self.next() + 1
    }

    /// Never fails, and gives the event the next number.
    fn append(
        &mut self,
        stamp: EventStamp,
        thread_id: ThreadId,
        turn_id: Option<TurnId>,
        event: RuntimeEvent,
    ) -> (recorded: Result<EventEnvelope, StoreError>)
        ensures
            recorded is Ok,
            recorded matches Ok(envelope) ==> envelope@.sequence == old(self).next(),
            final(self).next() == old(self).next() + 1,
    {
        let envelope = make_envelope(self.next_sequence, stamp, thread_id, turn_id, event);
        proof {
            use_type_invariant(&*self);
        }
        let copy = envelope.clone();
        let next: u64 = self.next_sequence + 1;
        let mut events: Vec<EventEnvelope> = Vec::new();
        std::mem::swap(&mut events, &mut self.events);
        proof {
            lemma_views_push(events@, envelope);
        }
        events.push(envelope);
        self.next_sequence = next;
        self.events = events;
        Ok(copy)
    }

    /// Never fails.
    fn load_thread(&self, thread_id: &ThreadId) -> (loaded: Result<Vec<EventEnvelope>, StoreError>)
        ensures
            loaded is Ok,
    {
        Ok(select_thread(&self.events, thread_id))
    }
}

// ---------------------------------------------------------------------------
// The journal of events in a file
// ---------------------------------------------------------------------------

/// One line of a journal file.
#[derive(Clone, Copy, Debug, PartialEq, Eq, Structural)]
pub struct JournalLine {
    /// Where the line starts.
    pub start: usize,
    /// The number of its bytes, with its line feed.
    pub length: usize,
    /// Whether it ends with a line feed.
    pub terminated: bool,
    /// Whether it holds nothing but ASCII whitespace.
    pub blank: bool,
}

/// The bytes that count as whitespace around a record.
pub open spec fn ascii_whitespace(byte: u8) -> bool {
    byte == 0x20 || byte == 0x9 || byte == 0xa || byte == 0xc || byte == 0xd
}

/// The position of the first line feed at or after `from`, or the length.
pub open spec fn line_feed(bytes: Seq<u8>, from: int) -> int
    decreases bytes.len() - from,
{
    if from < 0 || from >= bytes.len() || bytes[from] == 0xa {
        from
    } else {
        line_feed(bytes, from + 1)
    }
}

/// The lines of a file from a position on.
pub open spec fn journal_lines_of(bytes: Seq<u8>, from: int) -> Seq<JournalLine>
    decreases bytes.len() - from,
{
    if from < 0 || from >= bytes.len() {
        Seq::empty()
    } else {
        let end = line_feed(bytes, from);
        if from <= end < bytes.len() {
            seq![journal_line_of(bytes, from, end + 1)] + journal_lines_of(bytes, end + 1)
        } else {
            seq![journal_line_of(bytes, from, bytes.len() as int)]
        }
    }
}

/// The line between two positions.
pub open spec fn journal_line_of(bytes: Seq<u8>, from: int, to: int) -> JournalLine {
    JournalLine {
        start: from as usize,
        length: (to - from) as usize,
        terminated: bytes[to - 1] == 0xa,
        blank: forall|i: int| from <= i < to ==> ascii_whitespace(#[trigger] bytes[i]),
    }
}

proof fn lemma_line_feed(bytes: Seq<u8>, from: int, at: int)
    requires
        0 <= from <= at <= bytes.len(),
        at < bytes.len() ==> bytes[at] == 0xa,
        forall|i: int| from <= i < at ==> bytes[i] != 0xa,
    ensures
        line_feed(bytes, from) == at,
    decreases at - from,
{
    if from < at {
        lemma_line_feed(bytes, from + 1, at);
    }
}

/// Splits a journal file into its lines.
pub fn journal_lines(bytes: &Vec<u8>) -> (lines: Vec<JournalLine>)
    ensures
        lines@ == journal_lines_of(bytes@, 0),
{
    let mut lines: Vec<JournalLine> = Vec::new();
    let mut from: usize = 0;
    assert(lines@ + journal_lines_of(bytes@, 0) =~= journal_lines_of(bytes@, 0));
    while from < bytes.len()
        invariant
            from <= bytes.len(),
            journal_lines_of(bytes@, 0) == lines@ + journal_lines_of(bytes@, from as int),
        decreases bytes.len() - from,
    {
        let mut to: usize = from;
        let mut blank: bool = true;
        while to < bytes.len() && bytes[to] != 0xa
            invariant
                from <= to <= bytes.len(),
                forall|i: int| from <= i < to ==> bytes@[i] != 0xa,
                blank == (forall|i: int| from <= i < to ==> ascii_whitespace(#[trigger] bytes@[i])),
            decreases bytes.len() - to,
        {
            let byte: u8 = bytes[to];
            let space: bool = byte == 0x20 || byte == 0x9 || byte == 0xc || byte == 0xd;
            proof {
                if blank && space {
                    assert forall|i: int| from <= i < to + 1 implies ascii_whitespace(
                        #[trigger] bytes@[i],
                    ) by {}
                }
                if !space {
                    assert(!ascii_whitespace(bytes@[to as int]));
                }
            }
            blank = blank && space;
            to = to + 1;
        }
        proof {
            lemma_line_feed(bytes@, from as int, to as int);
        }
        let terminated: bool = to < bytes.len();
        let end: usize = if terminated {
            to + 1
        } else {
            to
        };
        let line = JournalLine { start: from, length: end - from, terminated, blank };
        proof {
            let whole = journal_line_of(bytes@, from as int, end as int);
            assert(whole.blank == blank) by {
                if blank {
                    assert forall|i: int| from <= i < end implies ascii_whitespace(
                        #[trigger] bytes@[i],
                    ) by {}
                } else {
                    let i = choose|i: int| from <= i < to
                        && !ascii_whitespace(#[trigger] bytes@[i]);
                    assert(!ascii_whitespace(bytes@[i]));
                }
            }
            assert(line == whole);
            if !terminated {
                assert(journal_lines_of(bytes@, end as int) =~= Seq::empty());
            }
            assert(lines@ + journal_lines_of(bytes@, from as int) =~= lines@.push(line)
                + journal_lines_of(bytes@, end as int));
        }
        lines.push(line);
        from = end;
    }
    assert(journal_lines_of(bytes@, from as int) =~= Seq::empty());
    assert(lines@ + Seq::<JournalLine>::empty() =~= lines@);
    lines
}

/// What the decoder made of a line that is not blank.
#[derive(Debug, PartialEq, Eq)]
pub enum DecodedEvent {
    Record(EventEnvelope),
    /// The text is no record; `incomplete` if it ended too early.
    Broken { incomplete: bool, message: String },
}

/// The model of [`DecodedEvent`].
#[verifier::ext_equal]
pub ghost enum DecodedEventView {
    Record(EventEnvelopeView),
    Broken { incomplete: bool, message: Seq<char> },
}

impl View for DecodedEvent {
    type V = DecodedEventView;

    open spec fn view(&self) -> DecodedEventView {
        match *self {
            DecodedEvent::Record(x0) => DecodedEventView::Record(x0@),
            DecodedEvent::Broken { incomplete, message } => DecodedEventView::Broken {
                incomplete,
                message: message@,
            },
        }
    }
}

impl Datum for DecodedEvent {
    fn snapshot(&self) -> (copy: Self) {
        match self {
            DecodedEvent::Record(x0) => DecodedEvent::Record(x0.snapshot()),
            DecodedEvent::Broken { incomplete, message } => DecodedEvent::Broken {
                incomplete: *incomplete,
                message: message.snapshot(),
            },
        }
    }

    fn same(&self, other: &Self) -> (equal: bool) {
        match (self, other) {
            (DecodedEvent::Record(x0), DecodedEvent::Record(y0)) => x0.same(y0),
            (
                DecodedEvent::Broken { incomplete: incomplete_a, message: message_a },
                DecodedEvent::Broken { incomplete: incomplete_b, message: message_b },
            ) => *incomplete_a == *incomplete_b && message_a.same(message_b),
            _ => false,
        }
    }
}

impl Clone for DecodedEvent {
    fn clone(&self) -> (copy: Self)
        ensures
            copy@ == self@,
    {
        self.snapshot()
    }
}

/// What a journal file holds.
#[verifier::ext_equal]
pub ghost struct JournalScanView {
    pub events: Seq<EventEnvelopeView>,
    /// The bytes in front of an incomplete last record.
    pub valid_bytes: nat,
    /// The line of an incomplete last record, counted from zero.
    pub torn_line: Option<nat>,
    /// Whether the last record lacks its line feed.
    pub needs_newline: bool,
}

/// What a journal file holds.
#[derive(Debug)]
pub struct JournalScan {
    pub events: Vec<EventEnvelope>,
    pub valid_bytes: usize,
    pub torn_line: Option<usize>,
    pub needs_newline: bool,
}

impl View for JournalScan {
    type V = JournalScanView;

    open spec fn view(&self) -> JournalScanView {
        JournalScanView {
            events: views(self.events@),
            valid_bytes: self.valid_bytes as nat,
            torn_line: match self.torn_line {
                Some(line) => Some(line as nat),
                None => None,
            },
            needs_newline: self.needs_newline,
        }
    }
}

/// Reads lines from position `at` on. Blank lines are skipped; an incomplete record
/// without line feed ends the file; any other broken record makes it corrupt.
pub open spec fn scan_of(
    lines: Seq<JournalLine>,
    decoded: Seq<DecodedEventView>,
    at: int,
    so_far: JournalScanView,
) -> Result<JournalScanView, StoreErrorView>
    decreases lines.len() - at,
{
    if at < 0 || at >= lines.len() {
        Ok(so_far)
    } else {
        let line = lines[at];
        let passed = JournalScanView {
            valid_bytes: so_far.valid_bytes + line.length as nat,
            needs_newline: !line.terminated,
            ..so_far
        };
        if line.blank {
            scan_of(lines, decoded, at + 1, passed)
        } else {
            match decoded[at] {
                DecodedEventView::Record(event) => scan_of(
                    lines,
                    decoded,
                    at + 1,
                    JournalScanView { events: so_far.events.push(event), ..passed },
                ),
                DecodedEventView::Broken { incomplete, message } => {
                    if !line.terminated && incomplete {
                        Ok(JournalScanView { torn_line: Some(at as nat), ..so_far })
                    } else {
                        Err(StoreErrorView::Corrupt { line: (at + 1) as usize, message })
                    }
                },
            }
        }
    }
}

/// The scan of no line.
pub open spec fn nothing_scanned() -> JournalScanView {
    JournalScanView { events: Seq::empty(), valid_bytes: 0, torn_line: None, needs_newline: false }
}

/// The number of bytes of the first lines.
pub open spec fn bytes_of(lines: Seq<JournalLine>, count: int) -> nat
    decreases count,
{
    if count <= 0 {
        0
    } else {
        bytes_of(lines, count - 1) + lines[count - 1].length as nat
    }
}

/// Reads the lines of a journal file, given what the decoder made of each (of a
/// blank line the decoder's answer is not looked at).
pub fn scan_journal(lines: &Vec<JournalLine>, decoded: &Vec<DecodedEvent>) -> (scan: Result<
    JournalScan,
    StoreError,
>)
    requires
        lines@.len() == decoded@.len(),
        bytes_of(lines@, lines@.len() as int) <= usize::MAX,
        lines@.len() < usize::MAX,
    ensures
        stored_view(scan) == scan_of(
            lines@,
            views(decoded@),
            0,
            nothing_scanned(),
        ),
{
    let ghost answers = views(decoded@);
    let mut scan = JournalScan {
        events: Vec::new(),
        valid_bytes: 0,
        torn_line: None,
        needs_newline: false,
    };
    assert(scan@ =~= nothing_scanned());
    let mut at: usize = 0;
    while at < lines.len()
        invariant
            at <= lines@.len(),
            lines@.len() == decoded@.len(),
            lines@.len() < usize::MAX,
            bytes_of(lines@, lines@.len() as int) <= usize::MAX,
            answers == views(decoded@),
            scan.valid_bytes as nat == bytes_of(lines@, at as int),
            scan_of(lines@, answers, 0, nothing_scanned()) == scan_of(
                lines@,
                answers,
                at as int,
                scan@,
            ),
        decreases lines@.len() - at,
    {
        let line = lines[at];
        proof {
            lemma_bytes_grow(lines@, at + 1, lines@.len() as int);
        }
        assert(answers[at as int] == decoded@[at as int]@);
        if !line.blank {
            match &decoded[at] {
                DecodedEvent::Record(event) => {
                    let copy = event.clone();
                    proof {
                        lemma_views_push(scan.events@, copy);
                    }
                    scan.events.push(copy);
                },
                DecodedEvent::Broken { incomplete, message } => {
                    if !line.terminated && *incomplete {
                        scan.torn_line = Some(at);
                        return Ok(scan);
                    }
                    return Err(StoreError::Corrupt { line: at + 1, message: message.clone() });
                },
            }
        }
        scan.valid_bytes = scan.valid_bytes + line.length;
        scan.needs_newline = !line.terminated;
        at = at + 1;
    }
    Ok(scan)
}

proof fn lemma_bytes_grow(lines: Seq<JournalLine>, count: int, whole: int)
    requires
        0 <= count <= whole,
    ensures
        bytes_of(lines, count) <= bytes_of(lines, whole),
    decreases whole,
{
    if count < whole {
        lemma_bytes_grow(lines, count, whole - 1);
    }
}

/// Puts an event behind the last one whose number does not exceed its own.
pub open spec fn filed(log: Seq<EventEnvelopeView>, event: EventEnvelopeView) -> Seq<EventEnvelopeView>
    decreases log.len(),
{
    if log.len() == 0 || log.last().sequence <= event.sequence {
        log.push(event)
    } else {
        filed(log.drop_last(), event).push(log.last())
    }
}

/// The events by number; events of one number stay in their order.
pub open spec fn by_number(log: Seq<EventEnvelopeView>) -> Seq<EventEnvelopeView>
    decreases log.len(),
{
    if log.len() == 0 {
        Seq::empty()
    } else {
        filed(by_number(log.drop_last()), log.last())
    }
}

/// Whether no event has a smaller number than an earlier one.
pub open spec fn in_order(log: Seq<EventEnvelopeView>) -> bool {
    forall|i: int, j: int|
        0 <= i < j < log.len() ==> (#[trigger] log[i]).sequence <= (#[trigger] log[j]).sequence
}

proof fn lemma_filed(log: Seq<EventEnvelopeView>, event: EventEnvelopeView)
    requires
        in_order(log),
    ensures
        in_order(filed(log, event)),
        filed(log, event).to_multiset() == log.to_multiset().insert(event),
        filed(log, event).len() == log.len() + 1,
        forall|i: int|
            0 <= i < filed(log, event).len() ==> (#[trigger] filed(log, event)[i]) == event
                || log.contains(filed(log, event)[i]),
    decreases log.len(),
{
    broadcast use vstd::seq_lib::group_to_multiset_ensures;

    let result = filed(log, event);
    if log.len() == 0 || log.last().sequence <= event.sequence {
        assert forall|i: int| 0 <= i < result.len() implies (#[trigger] result[i]) == event
            || log.contains(result[i]) by {
            if i < log.len() {
                assert(log[i] == result[i]);
            }
        }
    } else {
        let front = log.drop_last();
        lemma_filed(front, event);
        let inner = filed(front, event);
        assert(front.push(log.last()) =~= log);
        assert(log.to_multiset() =~= front.to_multiset().insert(log.last()));
        assert(result.to_multiset() =~= inner.to_multiset().insert(log.last()));
        assert(front.to_multiset().insert(event).insert(log.last())
            =~= front.to_multiset().insert(log.last()).insert(event));
        assert forall|i: int| 0 <= i < result.len() implies (#[trigger] result[i]) == event
            || log.contains(result[i]) by {
            if i < inner.len() {
                assert(result[i] == inner[i]);
                if inner[i] != event {
                    let k = choose|k: int| 0 <= k < front.len() && front[k] == inner[i];
                    assert(log[k] == result[i]);
                }
            } else {
                assert(log[log.len() - 1] == result[i]);
            }
        }
        assert forall|i: int, j: int| 0 <= i < j < result.len() implies (
        #[trigger] result[i]).sequence <= (#[trigger] result[j]).sequence by {
            if j < inner.len() {
                assert(inner[i].sequence <= inner[j].sequence);
            } else {
                assert(result[j] == log.last());
                assert(result[i] == inner[i]);
                if inner[i] != event {
                    let k = choose|k: int| 0 <= k < front.len() && front[k] == inner[i];
                    assert(log[k].sequence <= log[log.len() - 1].sequence);
                }
            }
        }
    }
}

/// Ordering a journal by number loses nothing, adds nothing, and leaves no event
/// behind one with a greater number.
pub proof fn law_journal_is_ordered(log: Seq<EventEnvelopeView>)
    ensures
        in_order(by_number(log)),
        by_number(log).to_multiset() == log.to_multiset(),
        by_number(log).len() == log.len(),
    decreases log.len(),
{
    broadcast use vstd::seq_lib::group_to_multiset_ensures;

    if log.len() > 0 {
        law_journal_is_ordered(log.drop_last());
        lemma_filed(by_number(log.drop_last()), log.last());
        assert(log.drop_last().push(log.last()) =~= log);
    } else {
        assert(by_number(log) =~= log);
    }
}

/// A journal that is in order already stays as it is.
pub proof fn law_ordered_journal_is_kept(log: Seq<EventEnvelopeView>)
    requires
        in_order(log),
    ensures
        by_number(log) == log,
    decreases log.len(),
{
    if log.len() > 0 {
        let front = log.drop_last();
        assert forall|i: int, j: int| 0 <= i < j < front.len() implies (
        #[trigger] front[i]).sequence <= (#[trigger] front[j]).sequence by {
            assert(log[i].sequence <= log[j].sequence);
        }
        law_ordered_journal_is_kept(front);
        if front.len() > 0 {
            assert(log[front.len() - 1].sequence <= log[log.len() - 1].sequence);
        }
        assert(front.push(log.last()) =~= log);
    } else {
        assert(by_number(log) =~= log);
    }
}

fn file_event(events: &mut Vec<EventEnvelope>, event: EventEnvelope)
    ensures
        views(final(events)@) == filed(views(old(events)@), event@),
{
    let ghost log = views(events@);
    let mut at: usize = events.len();
    assert(log.take(at as int) =~= log);
    assert(filed(log, event@) + log.skip(at as int) =~= filed(log, event@));
    while at > 0 && events[at - 1].sequence > event.sequence
        invariant
            at <= events@.len(),
            log == views(events@),
            filed(log, event@) == filed(log.take(at as int), event@) + log.skip(at as int),
        decreases at,
    {
        proof {
            let front = log.take(at as int);
            assert(front.last() == events@[at - 1]@);
            assert(front.drop_last() =~= log.take(at - 1));
            assert(filed(log.take(at - 1), event@).push(front.last()) + log.skip(at as int)
                =~= filed(log.take(at - 1), event@) + log.skip(at - 1));
        }
        at = at - 1;
    }
    proof {
        if at > 0 {
            assert(log.take(at as int).last() == events@[at - 1]@);
        }
    }
    let ghost before = events@;
    events.insert(at, event);
    assert(views(events@) =~= log.take(at as int).push(event@) + log.skip(at as int));
}

fn order_events(events: Vec<EventEnvelope>) -> (ordered: Vec<EventEnvelope>)
    ensures
        views(ordered@) == by_number(views(events@)),
{
    let ghost log = views(events@);
    let mut ordered: Vec<EventEnvelope> = Vec::new();
    let mut index: usize = 0;
    assert(log.take(0) =~= Seq::empty());
    assert(views(ordered@) =~= Seq::empty());
    while index < events.len()
        invariant
            index <= events@.len(),
            log == views(events@),
            views(ordered@) == by_number(log.take(index as int)),
        decreases events@.len() - index,
    {
        proof {
            let grown = log.take(index as int + 1);
            assert(grown.drop_last() =~= log.take(index as int));
            assert(grown.last() == events@[index as int]@);
        }
        let event = events[index].clone();
        file_event(&mut ordered, event);
        index = index + 1;
    }
    assert(log.take(index as int) =~= log);
    ordered
}

/// How the bytes of an append fared on their way to the file.
#[derive(Debug, PartialEq, Eq)]
pub enum WriteOutcome {
    /// The event could not be encoded; no byte was written.
    NotEncoded(String),
    /// Writing failed; part of the record may be in the file.
    Failed(String),
    /// The record is durable.
    Durable,
}

/// The state of a journal.
#[verifier::ext_equal]
pub ghost struct JournalView {
    pub log: Seq<EventEnvelopeView>,
    pub next: u64,
    pub write_failed: bool,
}

/// Append-only journal of events in a file. The host reads and writes the file; an
/// event counts as recorded only once its record is durable.
#[derive(Debug)]
pub struct JsonlEventStore {
    path: String,
    recovered_tail: Option<String>,
    next_sequence: u64,
    events: Vec<EventEnvelope>,
    write_failed: bool,
}

impl View for JsonlEventStore {
    type V = JournalView;

    closed spec fn view(&self) -> JournalView {
        JournalView {
            log: views(self.events@),
            next: self.next_sequence,
            write_failed: self.write_failed,
        }
    }
}

/// The message with which a journal refuses to write behind a partial record.
pub open spec fn reopen_first() -> StoreErrorView {
    StoreErrorView::Io("a previous append failed; reopen the event store before writing"@)
}

/// The journal after an append, and its answer.
pub open spec fn appended(
    journal: JournalView,
    envelope: EventEnvelopeView,
    outcome: WriteOutcome,
) -> (JournalView, Result<EventEnvelopeView, StoreErrorView>) {
    match outcome {
        WriteOutcome::NotEncoded(message) => (journal, Err(StoreErrorView::Serialization(message@))),
        WriteOutcome::Failed(message) => (
            JournalView { write_failed: true, ..journal },
            Err(StoreErrorView::Io(message@)),
        ),
        WriteOutcome::Durable => (
            JournalView {
                log: journal.log.push(envelope),
                next: (journal.next + 1) as u64,
                write_failed: false,
            },
            Ok(envelope),
        ),
    }
}

/// Whether a writer may have answered so to a record.
pub open spec fn event_written<W: Fn(EventEnvelope) -> WriteOutcome>(
    write: W,
    envelope: EventEnvelopeView,
    outcome: WriteOutcome,
) -> bool {
    exists|record: EventEnvelope|
        record@ == envelope && #[trigger] call_ensures(write, (record,), outcome)
}

/// Whether an append went this way: the journal refuses, or the record was written and the
/// writer answered.
pub open spec fn journals<W: Fn(EventEnvelope) -> WriteOutcome>(
    write: W,
    before: JournalView,
    envelope: EventEnvelopeView,
    after: JournalView,
    recorded: Result<EventEnvelopeView, StoreErrorView>,
) -> bool {
    if before.write_failed {
        after == before && recorded == Err::<EventEnvelopeView, StoreErrorView>(reopen_first())
    } else {
        exists|outcome: WriteOutcome| #[trigger]
            event_written(write, envelope, outcome) && (after, recorded) == appended(
                before,
                envelope,
                outcome,
            )
    }
}

/// The number behind the greatest one of the log, or zero.
pub open spec fn number_after(log: Seq<EventEnvelopeView>) -> int {
    if log.len() == 0 {
        0
    } else {
        by_number(log).last().sequence + 1
    }
}

/// A journal that was opened over the events of its file.
pub open spec fn opened(events: Seq<EventEnvelopeView>) -> JournalView {
    JournalView {
        log: by_number(events),
        next: number_after(events) as u64,
        write_failed: false,
    }
}

impl JsonlEventStore {
    /// Opens a journal over what its file holds. The numbers go on behind the
    /// greatest one in the file.
    pub fn open(path: String, recovered_tail: Option<String>, scan: JournalScan) -> (store: Self)
        requires
            forall|i: int|
                0 <= i < scan@.events.len() ==> (#[trigger] scan@.events[i]).sequence < u64::MAX,
        ensures
            store@ == opened(scan@.events),
            forall|i: int|
                0 <= i < store@.log.len() ==> (#[trigger] store@.log[i]).sequence < store@.next,
            store.file() == path@,
            store.torn_tail() == opt_view(recovered_tail),
    {
        let ghost log = scan@.events;
        let events = order_events(scan.events);
        proof {
            law_journal_is_ordered(log);
            lemma_numbers_bounded(log, by_number(log));
        }
        let next_sequence: u64 = if events.len() == 0 {
            0
        } else {
            assert(views(events@).last() == events@.last()@);
            events[events.len() - 1].sequence + 1
        };
        JsonlEventStore { path, recovered_tail, next_sequence, events, write_failed: false }
    }

    /// The file of the journal.
    pub closed spec fn file(&self) -> Seq<char> {
        self.path@
    }

    /// Where the incomplete tail went that was found when the journal was opened.
    pub closed spec fn torn_tail(&self) -> Option<Seq<char>> {
        opt_view(self.recovered_tail)
    }

    pub fn path(&self) -> (path: &str)
        ensures
            path@ == self.file(),
    {
        self.path.as_str()
    }

    /// Raw incomplete tail archived when the journal was opened, if any.
    pub fn recovered_tail_path(&self) -> (path: Option<&String>)
        ensures
            match path {
                Some(found) => self.torn_tail() == Some(found@),
                None => self.torn_tail() is None,
            },
    {
        match &self.recovered_tail {
            Some(path) => Some(path),
            None => None,
        }
    }

    /// Ends an append with how its write fared.
    fn settle(&mut self, envelope: EventEnvelope, outcome: WriteOutcome) -> (recorded: Result<
        EventEnvelope,
        StoreError,
    >)
        requires
            !old(self)@.write_failed,
            old(self)@.next < u64::MAX,
        ensures
            (final(self)@, stored_view(recorded)) == appended(old(self)@, envelope@, outcome),
            final(self).file() == old(self).file(),
            final(self).torn_tail() == old(self).torn_tail(),
    {
        match outcome {
            WriteOutcome::NotEncoded(message) => Err(StoreError::Serialization(message)),
            WriteOutcome::Failed(message) => {
                self.write_failed = true;
                Err(StoreError::Io(message))
            },
            WriteOutcome::Durable => {
                let copy = envelope.clone();
                proof {
                    lemma_views_push(self.events@, envelope);
                }
                self.next_sequence = self.next_sequence + 1;
                self.events.push(envelope);
                Ok(copy)
            },
        }
    }

    /// Records an event. A journal whose last write failed refuses, because the file may
    /// end in a partial record.
    pub fn append<W: Fn(EventEnvelope) -> WriteOutcome>(
        &mut self,
        stamp: EventStamp,
        thread_id: ThreadId,
        turn_id: Option<TurnId>,
        event: RuntimeEvent,
        write: &W,
    ) -> (recorded: Result<EventEnvelope, StoreError>)
        requires
            forall|envelope: EventEnvelope| call_requires(*write, (envelope,)),
            old(self)@.next < u64::MAX,
        ensures
            journals(
                *write,
                old(self)@,
                envelope_of(old(self)@.next, stamp@, thread_id@, opt_view(turn_id), event@),
                final(self)@,
                stored_view(recorded),
            ),
            final(self).file() == old(self).file(),
            final(self).torn_tail() == old(self).torn_tail(),
    {
        if self.write_failed {
            return Err(
                StoreError::Io(
                    "a previous append failed; reopen the event store before writing".to_owned(),
                ),
            );
        }
        let envelope = make_envelope(self.next_sequence, stamp, thread_id, turn_id, event);
        let copy = envelope.clone();
        let ghost view = envelope@;
        let outcome = write(copy);
        assert(event_written(*write, view, outcome));
        let recorded = self.settle(envelope, outcome);
        assert((self@, stored_view(recorded)) == appended(old(self)@, view, outcome));
        recorded
    }

    /// How many more events can be numbered.
    pub fn remaining(&self) -> (count: u64)
        ensures
            count == u64::MAX - self@.next,
    {
        u64::MAX - self.next_sequence
    }

    /// The events of a thread.
    pub fn load_thread(&self, thread_id: &ThreadId) -> (events: Vec<EventEnvelope>)
        ensures
            views(events@) == thread_log(self@.log, thread_id@),
    {
        select_thread(&self.events, thread_id)
    }
}

/// A journal together with what writes its file.
pub struct EventJournal<W: Fn(EventEnvelope) -> WriteOutcome> {
    pub store: JsonlEventStore,
    pub write: W,
}

impl<W: Fn(EventEnvelope) -> WriteOutcome> EventStore for EventJournal<W> {
    open spec fn log(&self) -> Seq<EventEnvelopeView> {
        self.store@.log
    }

    /// As many events as can be numbered, if they can be written at all.
    open spec fn room(&self) -> nat {
        if forall|envelope: EventEnvelope| call_requires(self.write, (envelope,)) {
            (u64::MAX - self.store@.next) as nat
        } else {
            0
        }
    }

    /// The journal takes what became of the write, and stays the journal of its file.
    open spec fn appends(
        &self,
        stamp: EventStampView,
        thread_id: Seq<char>,
        turn_id: Option<Seq<char>>,
        event: RuntimeEventView,
        after: Self,
        recorded: Result<EventEnvelopeView, StoreErrorView>,
    ) -> bool {
        &&& after.write == self.write
        &&& after.store.file() == self.store.file()
        &&& after.store.torn_tail() == self.store.torn_tail()
        &&& journals(
            self.write,
            self.store@,
            envelope_of(self.store@.next, stamp, thread_id, turn_id, event),
            after.store@,
            recorded,
        )
    }

    fn append(
        &mut self,
        stamp: EventStamp,
        thread_id: ThreadId,
        turn_id: Option<TurnId>,
        event: RuntimeEvent,
    ) -> (recorded: Result<EventEnvelope, StoreError>)
        ensures
            final(self).write == old(self).write,
            final(self).store.file() == old(self).store.file(),
            final(self).store.torn_tail() == old(self).store.torn_tail(),
            journals(
                old(self).write,
                old(self).store@,
                envelope_of(old(self).store@.next, stamp@, thread_id@, opt_view(turn_id), event@),
                final(self).store@,
                stored_view(recorded),
            ),
    {
        self.store.append(stamp, thread_id, turn_id, event, &self.write)
    }

    /// Never fails.
    fn load_thread(&self, thread_id: &ThreadId) -> (loaded: Result<Vec<EventEnvelope>, StoreError>)
        ensures
            loaded is Ok,
    {
        Ok(self.store.load_thread(thread_id))
    }
}

proof fn lemma_numbers_bounded(log: Seq<EventEnvelopeView>, ordered: Seq<EventEnvelopeView>)
    requires
        in_order(ordered),
        ordered.to_multiset() == log.to_multiset(),
        ordered.len() == log.len(),
        forall|i: int| 0 <= i < log.len() ==> (#[trigger] log[i]).sequence < u64::MAX,
    ensures
        log.len() > 0 ==> ordered.last().sequence < u64::MAX,
        forall|i: int|
            0 <= i < ordered.len() ==> (#[trigger] ordered[i]).sequence <= ordered.last().sequence,
{
    broadcast use vstd::seq_lib::group_to_multiset_ensures;

    if log.len() > 0 {
        assert(ordered.contains(ordered.last()));
        assert(ordered.to_multiset().contains(ordered.last()));
        assert(log.contains(ordered.last()));
        let k = choose|k: int| 0 <= k < log.len() && log[k] == ordered.last();
        assert(log[k].sequence < u64::MAX);
    }
}

proof fn lemma_scan_grows(
    lines: Seq<JournalLine>,
    decoded: Seq<DecodedEventView>,
    line: JournalLine,
    last: DecodedEventView,
    at: int,
    so_far: JournalScanView,
)
    requires
        0 <= at <= lines.len(),
        lines.len() == decoded.len(),
        scan_of(lines, decoded, at, so_far) matches Ok(scan) && scan.torn_line is None,
    ensures
        scan_of(lines.push(line), decoded.push(last), at, so_far) == scan_of(
            lines.push(line),
            decoded.push(last),
            lines.len() as int,
            scan_of(lines, decoded, at, so_far)->Ok_0,
        ),
    decreases lines.len() - at,
{
    if at < lines.len() {
        let here = lines[at];
        assert(lines.push(line)[at] == here);
        assert(decoded.push(last)[at] == decoded[at]);
        let passed = JournalScanView {
            valid_bytes: so_far.valid_bytes + here.length as nat,
            needs_newline: !here.terminated,
            ..so_far
        };
        if here.blank {
            lemma_scan_grows(lines, decoded, line, last, at + 1, passed);
        } else {
            match decoded[at] {
                DecodedEventView::Record(event) => {
                    let next = JournalScanView { events: so_far.events.push(event), ..passed };
                    lemma_scan_grows(lines, decoded, line, last, at + 1, next);
                },
                DecodedEventView::Broken { .. } => {},
            }
        }
    }
}

/// Reading gives back what was written: a file that grew by the record of a recorded event
/// opens as the journal that recorded it.
pub proof fn law_replay_follows_the_journal(
    lines: Seq<JournalLine>,
    decoded: Seq<DecodedEventView>,
    scan: JournalScanView,
    line: JournalLine,
    event: EventEnvelopeView,
)
    requires
        lines.len() == decoded.len(),
        scan_of(lines, decoded, 0, nothing_scanned()) == Ok::<JournalScanView, StoreErrorView>(
            scan,
        ),
        scan.torn_line is None,
        !line.blank,
        event.sequence == number_after(scan.events),
        event.sequence < u64::MAX,
    ensures
        ({
            let longer = JournalScanView {
                events: scan.events.push(event),
                valid_bytes: scan.valid_bytes + line.length as nat,
                torn_line: None,
                needs_newline: !line.terminated,
            };
            &&& scan_of(
                lines.push(line),
                decoded.push(DecodedEventView::Record(event)),
                0,
                nothing_scanned(),
            ) == Ok::<JournalScanView, StoreErrorView>(longer)
            &&& opened(longer.events) == appended(
                opened(scan.events),
                event,
                WriteOutcome::Durable,
            ).0
        }),
{
    let last = DecodedEventView::Record(event);
    lemma_scan_grows(lines, decoded, line, last, 0, nothing_scanned());
    let grown = scan.events.push(event);
    let longer = JournalScanView {
        events: grown,
        valid_bytes: scan.valid_bytes + line.length as nat,
        torn_line: None,
        needs_newline: !line.terminated,
    };
    assert(scan_of(lines.push(line), decoded.push(last), lines.len() as int + 1, longer) == Ok::<
        JournalScanView,
        StoreErrorView,
    >(longer));
    assert(grown.drop_last() =~= scan.events);
    law_journal_is_ordered(scan.events);
    assert(by_number(grown) =~= by_number(scan.events).push(event));
}

/// An incomplete last record costs nothing that was recorded before it.
pub proof fn law_torn_tails_lose_nothing(
    lines: Seq<JournalLine>,
    decoded: Seq<DecodedEventView>,
    scan: JournalScanView,
    line: JournalLine,
    message: Seq<char>,
)
    requires
        lines.len() == decoded.len(),
        scan_of(lines, decoded, 0, nothing_scanned()) == Ok::<JournalScanView, StoreErrorView>(
            scan,
        ),
        scan.torn_line is None,
        !line.blank,
        !line.terminated,
    ensures
        scan_of(
            lines.push(line),
            decoded.push(DecodedEventView::Broken { incomplete: true, message }),
            0,
            nothing_scanned(),
        ) == Ok::<JournalScanView, StoreErrorView>(
            JournalScanView { torn_line: Some(lines.len()), ..scan },
        ),
{
    lemma_scan_grows(
        lines,
        decoded,
        line,
        DecodedEventView::Broken { incomplete: true, message },
        0,
        nothing_scanned(),
    );
}

/// Once a write failed, every later append is refused and nothing is recorded until
/// the journal is opened again.
pub proof fn law_no_append_behind_a_partial_record(
    journal: JournalView,
    envelope: EventEnvelopeView,
    outcome: WriteOutcome,
)
    requires
        outcome is Failed,
    ensures
        appended(journal, envelope, outcome).0.write_failed,
        appended(journal, envelope, outcome).0.log == journal.log,
        appended(journal, envelope, outcome).1 is Err,
{
}

/// What was recorded is never lost or changed: a journal only grows, and it grows
/// exactly when the append is answered with success.
pub proof fn law_journal_only_grows(
    journal: JournalView,
    envelope: EventEnvelopeView,
    outcome: WriteOutcome,
)
    ensures
        appended(journal, envelope, outcome).1 is Ok <==> appended(journal, envelope, outcome).0.log
            == journal.log.push(envelope),
        appended(journal, envelope, outcome).1 is Err <==> appended(journal, envelope, outcome).0.log
            == journal.log,
{
    assert(journal.log.push(envelope).len() != journal.log.len());
}

} // verus!
