//! The dump reader: the documents of a ledger as one byte stream, with a
//! single newline between one document and the next.
//!
//! A `DumpCursor` is the course of a dump without the contents, for a
//! reader that opens its files one at a time. A `LedgerDump` is a reader
//! over contents that it holds.

use vstd::prelude::*;
use crate::cipher::password_accepted;
use crate::pull_stream::carried;
use crate::pull_stream::emitted;
use crate::pull_stream::is_record;
use crate::pull_stream::law_chunking;
use crate::pull_stream::lemma_record_is_carried;
use crate::pull_stream::NEWLINE;
use crate::relay::job_of;
use crate::relay::law_push_then_pull;
use crate::relay::pull_outcome;
use crate::relay::push_outcome;
use crate::relay::JobView;
use crate::relay::Reply;

verus! {

/// The contents of a list of files.
pub open spec fn contents(entries: Seq<Vec<u8>>) -> Seq<Seq<u8>> {
    Seq::new(entries.len(), |i: int| entries[i]@)
}

/// The bytes of `files` when each is preceded by a newline.
pub open spec fn after(files: Seq<Seq<u8>>) -> Seq<u8>
    decreases files.len(),
{
    if files.len() == 0 {
        Seq::empty()
    } else {
        seq![NEWLINE] + files[0] + after(files.skip(1))
    }
}

/// The bytes of `files` with one newline between one file and the next,
/// none before the first and none after the last.
pub open spec fn joined(files: Seq<Seq<u8>>) -> Seq<u8> {
    if files.len() == 0 {
        Seq::empty()
    } else {
        files[0] + after(files.skip(1))
    }
}

proof fn lemma_after_is_read_back(buf: Seq<u8>, files: Seq<Seq<u8>>)
    requires
        is_record(buf),
        forall|i: int| 0 <= i < files.len() ==> is_record(#[trigger] files[i]),
    ensures
        emitted(buf, after(files)) == (seq![buf] + files).drop_last(),
        carried(buf, after(files)) == (seq![buf] + files).last(),
    decreases files.len(),
{
    if files.len() == 0 {
        assert((seq![buf] + files).drop_last() =~= Seq::<Seq<u8>>::empty());
    } else {
        let first = files[0];
        let rest = files.skip(1);
        let tail = after(rest);
        let stream = after(files);
        assert(stream =~= seq![NEWLINE] + (first + tail));
        assert(stream[0] == NEWLINE);
        assert(stream.skip(1) =~= first + tail);
        assert(emitted(buf, stream) == seq![buf] + emitted(Seq::empty(), first + tail));
        assert(carried(buf, stream) == carried(Seq::empty(), first + tail));
        law_chunking(Seq::empty(), first, tail);
        lemma_record_is_carried(Seq::empty(), first);
        assert(Seq::<u8>::empty() + first =~= first);
        assert forall|i: int| 0 <= i < rest.len() implies is_record(#[trigger] rest[i]) by {
            assert(rest[i] == files[i + 1]);
        }
        lemma_after_is_read_back(first, rest);
        assert(seq![first] + rest =~= files);
        assert(seq![buf] + (Seq::<Seq<u8>>::empty() + files.drop_last()) =~= (seq![buf]
            + files).drop_last());
    }
}

/// A dump of records is cut back into the records it was made of, in
/// order: every record but the last is handed out, and the last, which no
/// newline follows, is what the cutter is left with.
pub proof fn law_dump_is_read_back(files: Seq<Seq<u8>>)
    requires
        files.len() > 0,
        forall|i: int| 0 <= i < files.len() ==> is_record(#[trigger] files[i]),
    ensures
        emitted(Seq::empty(), joined(files)) == files.drop_last(),
        carried(Seq::empty(), joined(files)) == files.last(),
        emitted(Seq::empty(), joined(files)).push(carried(Seq::empty(), joined(files))) == files,
{
    let first = files[0];
    let rest = files.skip(1);
    law_chunking(Seq::empty(), first, after(rest));
    lemma_record_is_carried(Seq::empty(), first);
    assert(Seq::<u8>::empty() + first =~= first);
    assert forall|i: int| 0 <= i < rest.len() implies is_record(#[trigger] rest[i]) by {
        assert(rest[i] == files[i + 1]);
    }
    lemma_after_is_read_back(first, rest);
    assert(seq![first] + rest =~= files);
    assert(Seq::<Seq<u8>>::empty() + files.drop_last() =~= files.drop_last());
    assert(files.drop_last().push(files.last()) =~= files);
}

/// A dump of records that was pushed to the relay and pulled with a
/// password that the job accepts comes back byte for byte, and is cut back
/// into the records it was made of: all but the last are handed out, and
/// the last is what the cutter is left with.
pub proof fn law_pushed_dump_is_pulled(
    files: Seq<Seq<u8>>,
    jobs0: Map<u32, JobView>,
    pin: Seq<char>,
    jobs1: Map<u32, JobView>,
    pushed: Result<(), Reply>,
    pw: Seq<char>,
    jobs2: Map<u32, JobView>,
    pulled: Result<Vec<u8>, Reply>,
)
    requires
        files.len() > 0,
        forall|i: int| 0 <= i < files.len() ==> is_record(#[trigger] files[i]),
        push_outcome(jobs0, pin, joined(files), jobs1, pushed),
        pushed is Ok,
        password_accepted(pw, (job_of(jobs0, pin)->0).1.pw_hash),
        pull_outcome(jobs1, pin, pw, jobs2, pulled),
    ensures
        pulled matches Ok(data) && data@ == joined(files) && emitted(Seq::empty(), data@)
            == files.drop_last() && carried(Seq::empty(), data@) == files.last(),
{
    law_push_then_pull(jobs0, pin, joined(files), jobs1, pushed, pw, jobs2, pulled);
    law_dump_is_read_back(files);
}

/// Where a dump reader stands.
#[derive(Debug, Clone, Copy, PartialEq, Eq, Structural)]
pub enum DumpPhase {
    /// No file was opened yet.
    Start,
    /// The file `index` is in hand.
    Reading { index: usize },
    /// The file in hand has ended; `next` is the file to open.
    Boundary { next: usize },
}

/// What the next read of a dump does.
#[derive(Debug, Clone, Copy, PartialEq, Eq, Structural)]
pub enum DumpStep {
    /// Nothing is left: the read is empty.
    Finished,
    /// The read opens file `index` and gives the newline that precedes it.
    Separator { index: usize },
    /// The read takes the next bytes of file `index`, which it opens if it
    /// is not in hand.
    Read { index: usize },
}

/// The course of a dump over `files` files, without their contents: which
/// file each read takes from, and when a newline is due.
#[derive(Debug, Clone, Copy)]
pub struct DumpCursor {
    files: usize,
    phase: DumpPhase,
}

/// The step that a reader over `files` files takes in phase `phase`.
pub open spec fn step_of(files: usize, phase: DumpPhase) -> DumpStep {
    match phase {
        DumpPhase::Start => if files == 0 {
            DumpStep::Finished
        } else {
            DumpStep::Read { index: 0 }
        },
        DumpPhase::Reading { index } => DumpStep::Read { index },
        DumpPhase::Boundary { next } => if next < files {
            DumpStep::Separator { index: next }
        } else {
            DumpStep::Finished
        },
    }
}

/// The phase after a step that gave `count` bytes: a read that gave
/// nothing has ended its file.
pub open spec fn phase_after(phase: DumpPhase, step: DumpStep, count: usize) -> DumpPhase {
    match step {
        DumpStep::Finished => phase,
        DumpStep::Separator { index } => DumpPhase::Reading { index },
        DumpStep::Read { index } => if count == 0 {
            DumpPhase::Boundary { next: (index + 1) as usize }
        } else {
            DumpPhase::Reading { index }
        },
    }
}

impl DumpCursor {
    /// How many files the dump is over.
    pub closed spec fn files(&self) -> usize {
        self.files
    }

    /// Where the reader stands.
    pub closed spec fn phase(&self) -> DumpPhase {
        self.phase
    }

    /// Whether the cursor stands at a file that there is.
    pub open spec fn wf(&self) -> bool {
        match self.phase() {
            DumpPhase::Start => true,
            DumpPhase::Reading { index } => index < self.files(),
            DumpPhase::Boundary { next } => next <= self.files(),
        }
    }

    /// The cursor at the start of a dump over `files` files.
    pub fn new(files: usize) -> (cursor: Self)
        ensures
            cursor.files() == files,
            cursor.phase() == DumpPhase::Start,
            cursor.wf(),
    {
        DumpCursor { files, phase: DumpPhase::Start }
    }

    /// What the next read does.
    pub fn step(&self) -> (step: DumpStep)
        ensures
            step == step_of(self.files(), self.phase()),
    {
        match self.phase {
            DumpPhase::Start => {
                if self.files == 0 {
                    DumpStep::Finished
                } else {
                    DumpStep::Read { index: 0 }
                }
            },
            DumpPhase::Reading { index } => DumpStep::Read { index },
            DumpPhase::Boundary { next } => {
                if next < self.files {
                    DumpStep::Separator { index: next }
                } else {
                    DumpStep::Finished
                }
            },
        }
    }

    /// Takes note that the step due was taken and gave `count` bytes.
    pub fn advance(&mut self, count: usize)
        requires
            old(self).wf(),
        ensures
            final(self).files() == old(self).files(),
            final(self).phase() == phase_after(
                old(self).phase(),
                step_of(old(self).files(), old(self).phase()),
                count,
            ),
            final(self).wf(),
    {
        match self.step() {
            DumpStep::Finished => {},
            DumpStep::Separator { index } => {
                self.phase = DumpPhase::Reading { index };
            },
            DumpStep::Read { index } => {
                if count == 0 {
                    self.phase = DumpPhase::Boundary { next: index + 1 };
                } else {
                    self.phase = DumpPhase::Reading { index };
                }
            },
        }
    }
}

/// A reader over the files of a ledger directory.
pub struct LedgerDump {
    entries: Vec<Vec<u8>>,
    cursor: DumpCursor,
    pos: usize,
}

impl LedgerDump {
    #[verifier::type_invariant]
    spec fn wf(self) -> bool {
        &&& self.cursor.files == self.entries@.len()
        &&& self.cursor.wf()
        &&& self.cursor.phase matches DumpPhase::Reading { index } ==> self.pos
            <= self.entries@[index as int]@.len()
    }

    /// The contents of the files of the dump, in the order in which they
    /// are sent.
    pub closed spec fn files(self) -> Seq<Seq<u8>> {
        contents(self.entries@)
    }

    /// Where the reader stands.
    pub closed spec fn phase(self) -> DumpPhase {
        self.cursor.phase
    }

    /// How many bytes of the file in hand were read.
    pub closed spec fn offset(self) -> nat {
        match self.cursor.phase {
            DumpPhase::Reading { index } => self.pos as nat,
            _ => 0,
        }
    }

    /// The bytes that are still to be read.
    pub open spec fn rest(self) -> Seq<u8> {
        match self.phase() {
            DumpPhase::Start => joined(self.files()),
            DumpPhase::Reading { index } => self.files()[index as int].skip(self.offset() as int)
                + after(self.files().skip(index + 1)),
            DumpPhase::Boundary { next } => after(self.files().skip(next as int)),
        }
    }

    /// Whether the file in hand has just ended.
    pub open spec fn boundary(self) -> bool {
        self.phase() is Boundary
    }

    /// Whether the reader stands in a file that there is, at a byte of it
    /// or at its end.
    pub open spec fn in_course(self) -> bool {
        &&& self.files().len() <= usize::MAX
        &&& match self.phase() {
            DumpPhase::Start => true,
            DumpPhase::Reading { index } => index < self.files().len() && self.offset()
                <= self.files()[index as int].len(),
            DumpPhase::Boundary { next } => next <= self.files().len(),
        }
    }

    /// A reader over `entries`, the contents of the files in the order in
    /// which they are to be sent.
    pub fn new(entries: Vec<Vec<u8>>) -> (dump: Self)
        ensures
            dump.files() == contents(entries@),
            dump.phase() == DumpPhase::Start,
            dump.offset() == 0,
    {
        let cursor = DumpCursor::new(entries.len());
        LedgerDump { entries, cursor, pos: 0 }
    }

    /// The next bytes of file `index` from `start` on, at most `max`.
    fn take(&self, index: usize, start: usize, max: usize) -> (chunk: Vec<u8>)
        requires
            index < self.entries@.len(),
            start <= self.entries@[index as int]@.len(),
        ensures
            start + chunk@.len() <= self.entries@[index as int]@.len() <= usize::MAX,
            chunk@ == self.entries@[index as int]@.subrange(
                start as int,
                start + if self.entries@[index as int]@.len() - start < max {
                    self.entries@[index as int]@.len() - start
                } else {
                    max as int
                },
            ),
    {
        let file = &self.entries[index];
        let available: usize = file.len() - start;
        let count: usize = if available < max {
            available
        } else {
            max
        };
        let mut chunk: Vec<u8> = Vec::new();
        let mut i: usize = 0;
        while i < count
            invariant
                i <= count,
                start + count <= file@.len(),
                file@.len() <= usize::MAX,
                chunk@ == file@.subrange(start as int, start + i),
            decreases count - i,
        {
            chunk.push(file[start + i]);
            assert(chunk@ =~= file@.subrange(start as int, start + i + 1));
            i = i + 1;
        }
        chunk
    }

    /// Reads the next bytes of the dump, at most `max` of them.
    ///
    /// Each read takes from one file only: it gives the next bytes of the
    /// file in hand, as many as there are up to `max`, or the newline that
    /// precedes the next file. A file that has ended gives an empty read,
    /// and the read after it gives the newline; so two empty reads in a row
    /// mean that the dump is finished.
    pub fn read(&mut self, max: usize) -> (chunk: Vec<u8>)
        requires
            max > 0,
        ensures
            old(self).in_course(),
            final(self).in_course(),
            read_outcome(
                old(self).files(),
                old(self).phase(),
                old(self).offset(),
                max,
                chunk@,
                final(self).files(),
                final(self).phase(),
                final(self).offset(),
            ),
    {
        proof {
            use_type_invariant(&*self);
        }
        match self.cursor.step() {
            DumpStep::Finished => Vec::new(),
            DumpStep::Separator { index } => {
                let mut chunk: Vec<u8> = Vec::new();
                chunk.push(NEWLINE);
                self.pos = 0;
                let mut cursor = self.cursor;
                cursor.advance(1);
                self.cursor = cursor;
                assert(chunk@ =~= seq![NEWLINE]);
                chunk
            },
            DumpStep::Read { index } => {
                let start: usize = match self.cursor.phase {
                    DumpPhase::Reading { .. } => self.pos,
                    _ => 0,
                };
                let chunk = self.take(index, start, max);
                let mut cursor = self.cursor;
                cursor.advance(chunk.len());
                self.pos = start + chunk.len();
                self.cursor = cursor;
                chunk
            },
        }
    }
}

/// What a read of at most `max` bytes does to a reader over `files` that
/// stands in `phase`, with `offset` bytes of the file in hand read: the
/// bytes `chunk` that it gives, and where the reader stands afterwards.
///
/// The chunk lies within one file, or it is the newline between two.
pub open spec fn read_outcome(
    files: Seq<Seq<u8>>,
    phase: DumpPhase,
    offset: nat,
    max: usize,
    chunk: Seq<u8>,
    files_after: Seq<Seq<u8>>,
    phase_then: DumpPhase,
    offset_then: nat,
) -> bool {
    &&& files_after == files
    &&& match step_of(files.len() as usize, phase) {
        DumpStep::Finished => chunk.len() == 0 && phase_then == phase && offset_then == offset,
        DumpStep::Separator { index } => chunk == seq![NEWLINE] && phase_then
            == (DumpPhase::Reading { index }) && offset_then == 0,
        DumpStep::Read { index } => {
            let file = files[index as int];
            let count = if file.len() - offset < max {
                file.len() - offset
            } else {
                max as int
            };
            &&& chunk == file.subrange(offset as int, offset + count)
            &&& phase_then == phase_after(phase, DumpStep::Read { index }, count as usize)
            &&& offset_then == if count == 0 {
                0
            } else {
                offset + count
            }
        },
    }
}

/// What a read gives and what it leaves make up what was left before it;
/// an empty read means that a file has just ended or that nothing is left,
/// and an empty read right after a file has ended means that nothing is
/// left.
pub proof fn law_read_takes_from_the_rest(before: LedgerDump, max: usize, chunk: Seq<u8>, then: LedgerDump)
    requires
        max > 0,
        before.in_course(),
        read_outcome(
            before.files(),
            before.phase(),
            before.offset(),
            max,
            chunk,
            then.files(),
            then.phase(),
            then.offset(),
        ),
    ensures
        chunk.len() <= max,
        before.rest() == chunk + then.rest(),
        chunk.len() == 0 ==> then.boundary() || then.rest().len() == 0,
        before.boundary() && chunk.len() == 0 ==> before.rest().len() == 0,
{
    let files = before.files();
    match step_of(files.len() as usize, before.phase()) {
        DumpStep::Finished => {
            if before.phase() is Boundary {
                assert(files.skip(files.len() as int) =~= Seq::<Seq<u8>>::empty());
            }
            assert(before.rest() =~= chunk + then.rest());
        },
        DumpStep::Separator { index } => {
            assert(files.skip(index as int)[0] == files[index as int]);
            assert(files.skip(index as int).skip(1) =~= files.skip(index + 1));
            assert(files[index as int].skip(0) =~= files[index as int]);
            assert(before.rest() =~= chunk + then.rest());
        },
        DumpStep::Read { index } => {
            let file = files[index as int];
            let offset = before.offset();
            assert(file.skip(0) =~= file);
            assert(file.skip(file.len() as int) =~= Seq::<u8>::empty());
            assert(file.skip(offset as int) =~= chunk + file.skip((offset + chunk.len()) as int));
            assert(files.skip(0) =~= files);
            assert(before.rest() =~= chunk + then.rest());
        },
    }
}

} // verus!
