//! Rolling buffers of output lines.

use std::collections::VecDeque;
use vstd::prelude::*;

use crate::clock::Timestamp;

verus! {

/// Where a line came from. `System` marks a notice of the runner itself.
#[derive(Debug, Clone, Copy, PartialEq, Eq, Structural)]
pub enum Stream {
    Stdout,
    Stderr,
    System,
}

/// One line of output.
#[derive(Debug)]
pub struct LogEntry {
    pub seq: u64,
    pub ts: Timestamp,
    pub stream: Stream,
    pub line: String,
}

impl Clone for LogEntry {
    fn clone(&self) -> (r: Self)
        ensures
            r == *self,
    {
        LogEntry { seq: self.seq, ts: self.ts, stream: self.stream, line: self.line.clone() }
    }
}

/// The bytes that a line took on its stream: its text, and the line break.
pub open spec fn line_bytes(line: Seq<char>) -> nat {
    vstd::utf8::encode_utf8(line).len() + 1
}

/// What a buffer holds and counts.
pub struct LogBufferView {
    /// The lines kept, oldest first.
    pub entries: Seq<LogEntry>,
    /// How many lines are kept at most.
    pub capacity: nat,
    /// One more than the highest sequence number given out so far.
    pub next_seq: nat,
    /// How many lines had to make room for newer ones.
    pub dropped: nat,
    /// The bytes of all lines that were counted.
    pub total_bytes: nat,
}

impl LogBufferView {
    /// Sequence numbers rise along the buffer and stay below the next one, and
    /// the lines fit the capacity. (A capacity of 0 bounds nothing: the first
    /// line finds no older one that could make room.)
    pub open spec fn wf(self) -> bool {
        &&& forall|i: int, j: int|
            0 <= i < j < self.entries.len() ==> (#[trigger] self.entries[i]).seq < (
            #[trigger] self.entries[j]).seq
        &&& forall|i: int|
            0 <= i < self.entries.len() ==> (#[trigger] self.entries[i]).seq < self.next_seq
        &&& self.capacity > 0 ==> self.entries.len() <= self.capacity
        &&& self.dropped <= self.next_seq
    }

    /// The lines that stay when one more is to come.
    pub open spec fn kept(self) -> Seq<LogEntry> {
        if self.entries.len() == self.capacity && self.entries.len() > 0 {
            self.entries.drop_first()
        } else {
            self.entries
        }
    }

    /// The buffer after one more line, whose bytes are counted or not.
    pub open spec fn appended(self, entry: LogEntry, counted: bool) -> LogBufferView {
        LogBufferView {
            entries: self.kept().push(entry),
            capacity: self.capacity,
            next_seq: entry.seq as nat + 1,
            dropped: if self.entries.len() == self.capacity {
                self.dropped + 1
            } else {
                self.dropped
            },
            total_bytes: if counted && entry.stream != Stream::System {
                self.total_bytes + line_bytes(entry.line@)
            } else {
                self.total_bytes
            },
        }
    }

    /// The newest `limit` lines.
    pub open spec fn tail(self, limit: nat) -> Seq<LogEntry> {
        newest(self.entries, limit)
    }

    /// The oldest `limit` lines.
    pub open spec fn head(self, limit: nat) -> Seq<LogEntry> {
        first(self.entries, limit)
    }

    /// The oldest `limit` lines among those numbered `n` or higher.
    pub open spec fn since_seq(self, n: u64, limit: nat) -> Seq<LogEntry> {
        first(self.entries.filter(|e: LogEntry| e.seq >= n), limit)
    }
}

/// The first `limit` elements, or all where there are fewer.
pub open spec fn first<A>(s: Seq<A>, limit: nat) -> Seq<A> {
    if limit >= s.len() {
        s
    } else {
        s.take(limit as int)
    }
}

/// The last `limit` elements, or all where there are fewer.
pub open spec fn newest<A>(s: Seq<A>, limit: nat) -> Seq<A> {
    if limit >= s.len() {
        s
    } else {
        s.skip(s.len() - limit)
    }
}

/// The counters of a buffer at one moment.
#[derive(Debug, Clone, Copy, PartialEq, Eq, Structural)]
pub struct BufferStats {
    pub lines: usize,
    pub dropped: u64,
    pub bytes: u64,
}

/// A rolling buffer of lines.
pub struct LogBuffer {
    entries: VecDeque<LogEntry>,
    capacity: usize,
    seq_counter: u64,
    pub dropped: u64,
    pub total_bytes: u64,
}

impl View for LogBuffer {
    type V = LogBufferView;

    closed spec fn view(&self) -> LogBufferView {
        LogBufferView {
            entries: self.entries@,
            capacity: self.capacity as nat,
            next_seq: self.seq_counter as nat,
            dropped: self.dropped as nat,
            total_bytes: self.total_bytes as nat,
        }
    }
}

impl LogBuffer {
    /// An empty buffer that keeps at most `capacity` lines.
    pub fn new(capacity: usize) -> (r: Self)
        ensures
            r@ == (LogBufferView {
                entries: Seq::empty(),
                capacity: capacity as nat,
                next_seq: 0,
                dropped: 0,
                total_bytes: 0,
            }),
            r@.wf(),
    {
        let reserved: usize = if capacity < 1024 {
            capacity
        } else {
            1024
        };
        LogBuffer {
            entries: VecDeque::with_capacity(reserved),
            capacity,
            seq_counter: 0,
            dropped: 0,
            total_bytes: 0,
        }
    }

    /// Adds a line under the next sequence number, and returns that number.
    pub fn push(&mut self, stream: Stream, line: String, ts: Timestamp) -> (seq: u64)
        requires
            old(self)@.wf(),
            old(self)@.next_seq < u64::MAX,
            stream != Stream::System ==> old(self)@.total_bytes + line_bytes(line@) <= u64::MAX,
        ensures
            seq == old(self)@.next_seq,
            final(self)@ == old(self)@.appended((LogEntry { seq, ts, stream, line }), true),
            final(self)@.wf(),
    {
        let seq: u64 = self.seq_counter;
        self.push_with_seq(seq, stream, line, ts);
        seq
    }

    /// Adds a line under a sequence number that comes from outside the buffer,
    /// higher than those of the lines before it.
    pub fn push_with_seq(&mut self, seq: u64, stream: Stream, line: String, ts: Timestamp)
        requires
            old(self)@.wf(),
            old(self)@.next_seq <= seq < u64::MAX,
            stream != Stream::System ==> old(self)@.total_bytes + line_bytes(line@) <= u64::MAX,
        ensures
            final(self)@ == old(self)@.appended((LogEntry { seq, ts, stream, line }), true),
            final(self)@.wf(),
    {
        if stream != Stream::System {
            self.total_bytes = self.total_bytes + (line.as_str().as_bytes().len() as u64 + 1);
        }
        self.append(LogEntry { seq, ts, stream, line });
    }

    /// Adds a line under a sequence number that comes from outside the buffer,
    /// and leaves its bytes uncounted.
    pub fn push_uncounted(&mut self, seq: u64, stream: Stream, line: String, ts: Timestamp)
        requires
            old(self)@.wf(),
            old(self)@.next_seq <= seq < u64::MAX,
        ensures
            final(self)@ == old(self)@.appended((LogEntry { seq, ts, stream, line }), false),
            final(self)@.wf(),
    {
        self.append(LogEntry { seq, ts, stream, line });
    }

    fn append(&mut self, entry: LogEntry)
        requires
            old(self)@.wf(),
            old(self)@.next_seq <= entry.seq < u64::MAX,
        ensures
            final(self)@ == old(self)@.appended(entry, false),
            final(self)@.wf(),
    {
        self.seq_counter = entry.seq + 1;
        if self.entries.len() == self.capacity {
            self.entries.pop_front();
            self.dropped = self.dropped + 1;
        }
        self.entries.push_back(entry);
        assert(self@.entries =~= old(self)@.appended(entry, false).entries);
    }

    /// Clones the lines at places `from` to `to`.
    fn copy_range(&self, from: usize, to: usize) -> (r: Vec<LogEntry>)
        requires
            from <= to <= self@.entries.len(),
        ensures
            r@ == self@.entries.subrange(from as int, to as int),
    {
        let mut out: Vec<LogEntry> = Vec::new();
        let mut i: usize = from;
        while i < to
            invariant
                from <= i <= to <= self@.entries.len(),
                out@ == self@.entries.subrange(from as int, i as int),
            decreases to - i,
        {
            out.push(self.entries[i].clone());
            i = i + 1;
        }
        out
    }

    /// The newest `limit` lines, oldest of them first.
    pub fn tail(&self, limit: usize) -> (r: Vec<LogEntry>)
        ensures
            r@ == self@.tail(limit as nat),
    {
        let len: usize = self.entries.len();
        let skip: usize = if limit >= len {
            0
        } else {
            len - limit
        };
        self.copy_range(skip, len)
    }

    /// The oldest `limit` lines still in the buffer.
    pub fn head(&self, limit: usize) -> (r: Vec<LogEntry>)
        ensures
            r@ == self@.head(limit as nat),
    {
        let len: usize = self.entries.len();
        let to: usize = if limit >= len {
            len
        } else {
            limit
        };
        self.copy_range(0, to)
    }

    /// At most `limit` lines numbered `n` or higher, oldest first.
    pub fn since_seq(&self, n: u64, limit: usize) -> (r: Vec<LogEntry>)
        ensures
            r@ == self@.since_seq(n, limit as nat),
    {
        let ghost wanted = |e: LogEntry| e.seq >= n;
        let mut out: Vec<LogEntry> = Vec::new();
        let mut i: usize = 0;
        while i < self.entries.len() && out.len() < limit
            invariant
                i <= self@.entries.len(),
                out.len() <= limit,
                wanted == (|e: LogEntry| e.seq >= n),
                out@ == self@.entries.take(i as int).filter(wanted),
            decreases self.entries.len() - i,
        {
            proof {
                lemma_filter_step(self@.entries, wanted, i as int);
            }
            if self.entries[i].seq >= n {
                out.push(self.entries[i].clone());
            }
            i = i + 1;
        }
        proof {
            let entries = self@.entries;
            assert(entries =~= entries.take(i as int) + entries.skip(i as int));
            Seq::filter_distributes_over_add(entries.take(i as int), entries.skip(i as int), wanted);
            if i == entries.len() {
                assert(entries.take(i as int) =~= entries);
            }
            assert(out@ =~= first(entries.filter(wanted), limit as nat));
        }
        out
    }

    /// How many lines are in the buffer.
    pub fn len(&self) -> (r: usize)
        ensures
            r == self@.entries.len(),
    {
        self.entries.len()
    }

    /// Whether the buffer holds no line.
    pub fn is_empty(&self) -> (r: bool)
        ensures
            r == (self@.entries.len() == 0),
    {
        self.entries.len() == 0
    }

    /// The lines held, the lines dropped and the bytes counted.
    pub fn stats(&self) -> (r: BufferStats)
        ensures
            r.lines == self@.entries.len(),
            r.dropped == self@.dropped,
            r.bytes == self@.total_bytes,
    {
        BufferStats { lines: self.entries.len(), dropped: self.dropped, bytes: self.total_bytes }
    }

    /// The sequence number that the next `push` gives.
    pub fn peek_next_seq(&self) -> (r: u64)
        ensures
            r == self@.next_seq,
    {
        self.seq_counter
    }
}

/// The buffer after a run of lines.
pub open spec fn replay(b: LogBufferView, run: Seq<LogEntry>, counted: bool) -> LogBufferView
    decreases run.len(),
{
    if run.len() == 0 {
        b
    } else {
        replay(b, run.drop_last(), counted).appended(run.last(), counted)
    }
}

/// The bytes of the lines of a run that are not notices of the runner.
pub open spec fn output_bytes(run: Seq<LogEntry>) -> nat
    decreases run.len(),
{
    if run.len() == 0 {
        0
    } else if run.last().stream == Stream::System {
        output_bytes(run.drop_last())
    } else {
        output_bytes(run.drop_last()) + line_bytes(run.last().line@)
    }
}

/// Whether the lines of a run are numbered upwards from `n` or higher.
pub open spec fn rising(n: nat, run: Seq<LogEntry>) -> bool {
    &&& forall|i: int| 0 <= i < run.len() ==> n <= (#[trigger] run[i]).seq
    &&& forall|i: int, j: int|
        0 <= i < j < run.len() ==> (#[trigger] run[i]).seq < (#[trigger] run[j]).seq
}

/// A buffer that started empty holds exactly the newest lines, as many as its
/// capacity, has dropped every older one, and has counted the bytes of all of
/// them but the runner's own notices.
pub proof fn law_buffer_holds_newest_lines(b: LogBufferView, run: Seq<LogEntry>)
    requires
        b.entries.len() == 0,
        b.capacity > 0,
    ensures
        ({
            let after = replay(b, run, true);
            &&& after.entries == newest(run, b.capacity)
            &&& after.entries.len() + (after.dropped - b.dropped) == run.len()
        }),
        replay(b, run, true).total_bytes == b.total_bytes + output_bytes(run),
        replay(b, run, true).capacity == b.capacity,
    decreases run.len(),
{
    if run.len() > 0 {
        law_buffer_holds_newest_lines(b, run.drop_last());
        assert(replay(b, run, true).entries =~= newest(run, b.capacity));
    }
}

/// A buffer whose lines are left uncounted counts no byte.
pub proof fn law_uncounted_lines_count_no_bytes(b: LogBufferView, run: Seq<LogEntry>)
    ensures
        replay(b, run, false).total_bytes == b.total_bytes,
        replay(b, run, false).entries == replay(b, run, true).entries,
        replay(b, run, false).dropped == replay(b, run, true).dropped,
        replay(b, run, false).capacity == replay(b, run, true).capacity,
    decreases run.len(),
{
    if run.len() > 0 {
        law_uncounted_lines_count_no_bytes(b, run.drop_last());
    }
}

/// Every line that arrives is either in the buffer or counted as dropped.
pub proof fn law_no_line_goes_missing(b: LogBufferView, entry: LogEntry, counted: bool)
    requires
        b.wf(),
        b.capacity > 0,
    ensures
        b.appended(entry, counted).entries.len() + b.appended(entry, counted).dropped
            == b.entries.len() + b.dropped + 1,
        b.appended(entry, counted).entries.last() == entry,
{
}

/// The oldest `k` lines and the newest of the rest make up the buffer.
pub proof fn law_head_and_tail_meet(b: LogBufferView, k: nat)
    requires
        k <= b.entries.len(),
    ensures
        b.head(k) + b.tail((b.entries.len() - k) as nat) == b.entries,
{
    assert(b.head(k) + b.tail((b.entries.len() - k) as nat) =~= b.entries);
}

/// A reader that asks again with the number it was told to expect next gets no
/// line that was in the buffer before, and gets, oldest first, the lines that
/// came since and are still there.
pub proof fn law_reader_resumes_where_it_left(
    b: LogBufferView,
    run: Seq<LogEntry>,
    counted: bool,
    n: u64,
    limit: nat,
)
    requires
        b.wf(),
        n == b.next_seq,
        rising(n as nat, run),
    ensures
        ({
            let answer = replay(b, run, counted).since_seq(n, limit);
            &&& answer == first(replay(b, run, counted).tail(run.len()), limit)
            &&& b.capacity > 0 ==> answer == first(newest(run, b.capacity), limit)
            &&& forall|i: int, j: int|
                0 <= i < answer.len() && 0 <= j < b.entries.len() ==> (#[trigger] answer[i]).seq > (
                #[trigger] b.entries[j]).seq
        }),
{
    let after = replay(b, run, counted);
    let answer = after.since_seq(n, limit);
    lemma_lines_since(b, run, counted, n);
    lemma_lines_of_the_run(b, run, counted);
    if b.capacity > 0 {
        lemma_replay_length(b, run, counted);
    }
    assert forall|i: int, j: int|
        0 <= i < answer.len() && 0 <= j < b.entries.len() implies (#[trigger] answer[i]).seq > (
    #[trigger] b.entries[j]).seq by {
        assert(answer[i] == after.tail(run.len())[i]);
        assert(b.entries[j].seq < n);
    }
}

/// After a run the newest lines, as many as the run has, are the end of it.
proof fn lemma_lines_of_the_run(b: LogBufferView, run: Seq<LogEntry>, counted: bool)
    ensures
        ({
            let after = replay(b, run, counted);
            let new = after.tail(run.len());
            &&& new.len() <= run.len()
            &&& new == run.skip(run.len() - new.len())
            &&& forall|i: int| 0 <= i < new.len() ==> #[trigger] new[i] == run[run.len() - new.len() + i]
            &&& after.entries.len() >= run.len() ==> new == run
            &&& after.entries.len() <= run.len() ==> new == newest(run, after.entries.len())
        }),
{
    let all = b.entries + run;
    let after = replay(b, run, counted);
    let new = after.tail(run.len());
    lemma_replay_is_suffix(b, run, counted);
    assert(new =~= run.skip(run.len() - new.len()));
    if after.entries.len() >= run.len() {
        assert(new =~= run);
    }
    if after.entries.len() <= run.len() {
        assert(new =~= newest(run, after.entries.len()));
    }
}

/// After a run that is numbered from `n` on, the lines numbered from `n` on are
/// those of the run.
proof fn lemma_lines_since(b: LogBufferView, run: Seq<LogEntry>, counted: bool, n: u64)
    requires
        b.wf(),
        n == b.next_seq,
        rising(n as nat, run),
    ensures
        replay(b, run, counted).entries.filter(|e: LogEntry| e.seq >= n) == replay(
            b,
            run,
            counted,
        ).tail(run.len()),
{
    let after = replay(b, run, counted);
    let wanted = |e: LogEntry| e.seq >= n;
    let all = b.entries + run;
    let from = all.len() - after.entries.len();
    let old_part = if after.entries.len() <= run.len() {
        Seq::<LogEntry>::empty()
    } else {
        after.entries.take(after.entries.len() - run.len())
    };
    let new_part = after.tail(run.len());
    lemma_replay_is_suffix(b, run, counted);
    lemma_lines_of_the_run(b, run, counted);
    assert(after.entries =~= old_part + new_part);
    assert forall|i: int| 0 <= i < old_part.len() implies !wanted(#[trigger] old_part[i]) by {
        assert(old_part[i] == b.entries[from + i]);
    }
    Seq::filter_distributes_over_add(old_part, new_part, wanted);
    lemma_filter_none(old_part, wanted);
    lemma_filter_all(new_part, wanted);
    assert(Seq::<LogEntry>::empty() + new_part =~= new_part);
}

/// After a run the buffer holds the end of the old lines and the run.
proof fn lemma_replay_is_suffix(b: LogBufferView, run: Seq<LogEntry>, counted: bool)
    ensures
        ({
            let all = b.entries + run;
            let after = replay(b, run, counted);
            &&& after.entries.len() <= all.len()
            &&& after.entries == all.skip(all.len() - after.entries.len())
        }),
    decreases run.len(),
{
    let all = b.entries + run;
    let after = replay(b, run, counted);
    if run.len() == 0 {
        assert(all.skip(0) =~= b.entries);
    } else {
        let before = replay(b, run.drop_last(), counted);
        lemma_replay_is_suffix(b, run.drop_last(), counted);
        assert(all =~= (b.entries + run.drop_last()).push(run.last()));
        assert(after.entries =~= all.skip(all.len() - after.entries.len()));
    }
}

/// After a run the buffer is full, or holds all lines.
proof fn lemma_replay_length(b: LogBufferView, run: Seq<LogEntry>, counted: bool)
    requires
        b.entries.len() <= b.capacity,
        b.capacity > 0,
    ensures
        replay(b, run, counted).capacity == b.capacity,
        replay(b, run, counted).entries.len() == if b.entries.len() + run.len() <= b.capacity {
            b.entries.len() + run.len()
        } else {
            b.capacity
        },
    decreases run.len(),
{
    if run.len() > 0 {
        lemma_replay_length(b, run.drop_last(), counted);
    }
}

/// A line numbered after all lines of a buffer in order leaves it in order.
pub proof fn law_order_is_kept(b: LogBufferView, entry: LogEntry, counted: bool)
    requires
        b.wf(),
        b.next_seq <= entry.seq,
    ensures
        b.appended(entry, counted).wf(),
{
}

proof fn lemma_filter_none(s: Seq<LogEntry>, wanted: spec_fn(LogEntry) -> bool)
    requires
        forall|i: int| 0 <= i < s.len() ==> !wanted(#[trigger] s[i]),
    ensures
        s.filter(wanted) == Seq::<LogEntry>::empty(),
    decreases s.len(),
{
    reveal(Seq::filter);
    if s.len() > 0 {
        lemma_filter_none(s.drop_last(), wanted);
        assert(!wanted(s[s.len() - 1]));
    }
}

proof fn lemma_filter_all(s: Seq<LogEntry>, wanted: spec_fn(LogEntry) -> bool)
    requires
        forall|i: int| 0 <= i < s.len() ==> wanted(#[trigger] s[i]),
    ensures
        s.filter(wanted) == s,
    decreases s.len(),
{
    reveal(Seq::filter);
    if s.len() > 0 {
        lemma_filter_all(s.drop_last(), wanted);
        assert(wanted(s[s.len() - 1]));
        assert(s =~= s.drop_last().push(s.last()));
    }
}

/// Filtering one element more.
proof fn lemma_filter_step(s: Seq<LogEntry>, wanted: spec_fn(LogEntry) -> bool, i: int)
    requires
        0 <= i < s.len(),
    ensures
        s.take(i + 1).filter(wanted) == if wanted(s[i]) {
            s.take(i).filter(wanted).push(s[i])
        } else {
            s.take(i).filter(wanted)
        },
{
    reveal(Seq::filter);
    assert(s.take(i + 1).drop_last() =~= s.take(i));
}

// ---------------------------------------------------------------------------
// What is kept and what is read, line by line
// ---------------------------------------------------------------------------

/// A new line comes last, as it is, and gives the next number. Where the buffer
/// is not full every line stays in its place; where it is full the oldest line
/// goes, the others move up by one, and one more is counted as dropped. The
/// bytes counted grow by those of the line in UTF-8 and one for its break, and
/// not at all for a notice or where bytes are not counted.
pub proof fn law_a_line_comes_last(b: LogBufferView, entry: LogEntry, counted: bool)
    ensures
        ({
            let after = b.appended(entry, counted);
            let n = b.entries.len() as int;
            &&& after.entries.len() > 0
            &&& after.entries[after.entries.len() - 1] == entry
            &&& after.next_seq == entry.seq + 1
            &&& after.capacity == b.capacity
            &&& n != b.capacity ==> {
                &&& after.entries.len() == n + 1
                &&& after.dropped == b.dropped
                &&& forall|i: int| 0 <= i < n ==> #[trigger] after.entries[i] == b.entries[i]
            }
            &&& n == b.capacity ==> after.dropped == b.dropped + 1
            &&& n == b.capacity && n > 0 ==> {
                &&& after.entries.len() == n
                &&& forall|i: int| 0 <= i < n - 1 ==> #[trigger] after.entries[i] == b.entries[i + 1]
            }
            &&& n == b.capacity && n == 0 ==> after.entries.len() == 1
            &&& after.total_bytes - b.total_bytes == if counted && entry.stream != Stream::System {
                vstd::utf8::encode_utf8(entry.line@).len() + 1
            } else {
                0
            }
        }),
{
}

/// The bytes of a line are those of its pieces and of one break.
pub proof fn law_bytes_add_up(a: Seq<char>, b: Seq<char>)
    ensures
        line_bytes(Seq::empty()) == 1,
        line_bytes(a + b) + 1 == line_bytes(a) + line_bytes(b),
    decreases a.len(),
{
    if a.len() == 0 {
        assert(a + b =~= b);
    } else {
        law_bytes_add_up(a.drop_first(), b);
        assert((a + b).drop_first() =~= a.drop_first() + b);
        assert((a + b)[0] == a[0]);
    }
}

/// The newest lines read are the last of the buffer: as many as asked for, or
/// all where there are fewer, each in its place.
pub proof fn law_newest_lines_are_the_last(b: LogBufferView, limit: nat)
    ensures
        b.tail(limit).len() == if limit < b.entries.len() {
            limit
        } else {
            b.entries.len()
        },
        forall|i: int|
            0 <= i < b.tail(limit).len() ==> #[trigger] b.tail(limit)[i] == b.entries[b.entries.len()
                - b.tail(limit).len() + i],
{
}

/// The oldest lines read are the first of the buffer: as many as asked for, or
/// all where there are fewer, each in its place.
pub proof fn law_oldest_lines_are_the_first(b: LogBufferView, limit: nat)
    ensures
        b.head(limit).len() == if limit < b.entries.len() {
            limit
        } else {
            b.entries.len()
        },
        forall|i: int|
            0 <= i < b.head(limit).len() ==> #[trigger] b.head(limit)[i] == b.entries[i],
{
}

/// Where the lines from place `k` on are those numbered `n` or higher, reading
/// from number `n` gives the lines from place `k` on: as many as asked for, or
/// all where there are fewer, each in its place.
pub proof fn law_lines_from_a_number(b: LogBufferView, n: u64, limit: nat, k: int)
    requires
        0 <= k <= b.entries.len(),
        forall|i: int| 0 <= i < k ==> (#[trigger] b.entries[i]).seq < n,
        forall|i: int| k <= i < b.entries.len() ==> (#[trigger] b.entries[i]).seq >= n,
    ensures
        b.since_seq(n, limit).len() == if limit < b.entries.len() - k {
            limit as int
        } else {
            b.entries.len() - k
        },
        forall|i: int|
            0 <= i < b.since_seq(n, limit).len() ==> #[trigger] b.since_seq(n, limit)[i]
                == b.entries[k + i],
{
    let wanted = |e: LogEntry| e.seq >= n;
    let before = b.entries.take(k);
    let after = b.entries.skip(k);
    assert(b.entries =~= before + after);
    Seq::filter_distributes_over_add(before, after, wanted);
    lemma_filter_none(before, wanted);
    lemma_filter_all(after, wanted);
    assert(Seq::<LogEntry>::empty() + after =~= after);
    assert(b.entries.filter(wanted) == after);
}

/// A buffer in order holds lines whose numbers rise and stay below the next one,
/// and no more of them than it has room for.
pub proof fn law_lines_are_in_order(b: LogBufferView)
    requires
        b.wf(),
    ensures
        forall|i: int, j: int|
            0 <= i < j < b.entries.len() ==> (#[trigger] b.entries[i]).seq < (
            #[trigger] b.entries[j]).seq,
        forall|i: int| 0 <= i < b.entries.len() ==> (#[trigger] b.entries[i]).seq < b.next_seq,
        b.capacity > 0 ==> b.entries.len() <= b.capacity,
{
}

} // verus!
