//! Cutting a pulled byte stream into records.
//!
//! A record is a non-empty run of bytes other than the newline, ended by a
//! newline. Bytes after the last newline are carried until more arrive.

use vstd::prelude::*;

verus! {

/// The byte that ends a record.
pub const NEWLINE: u8 = 10;

/// The records that complete while `bytes` are read after the partial
/// record `buf`.
pub open spec fn emitted(buf: Seq<u8>, bytes: Seq<u8>) -> Seq<Seq<u8>>
    decreases bytes.len(),
{
    if bytes.len() == 0 {
        Seq::empty()
    } else if bytes[0] != NEWLINE {
        emitted(buf.push(bytes[0]), bytes.skip(1))
    } else if buf.len() > 0 {
        seq![buf] + emitted(Seq::empty(), bytes.skip(1))
    } else {
        emitted(buf, bytes.skip(1))
    }
}

/// The partial record that is left when `bytes` were read after the
/// partial record `buf`.
pub open spec fn carried(buf: Seq<u8>, bytes: Seq<u8>) -> Seq<u8>
    decreases bytes.len(),
{
    if bytes.len() == 0 {
        buf
    } else if bytes[0] != NEWLINE {
        carried(buf.push(bytes[0]), bytes.skip(1))
    } else {
        carried(Seq::empty(), bytes.skip(1))
    }
}

/// The records do not depend on how the stream is cut into chunks: reading
/// `a` and then `b` gives what reading `a + b` gives.
pub proof fn law_chunking(buf: Seq<u8>, a: Seq<u8>, b: Seq<u8>)
    ensures
        emitted(buf, a + b) == emitted(buf, a) + emitted(carried(buf, a), b),
        carried(buf, a + b) == carried(carried(buf, a), b),
    decreases a.len(),
{
    if a.len() == 0 {
        assert(a + b =~= b);
        assert(emitted(buf, a) + emitted(buf, b) =~= emitted(buf, b));
    } else {
        let ab = a + b;
        assert(ab[0] == a[0]);
        assert(ab.skip(1) =~= a.skip(1) + b);
        if a[0] != NEWLINE {
            law_chunking(buf.push(a[0]), a.skip(1), b);
            assert(emitted(buf, ab) == emitted(buf.push(a[0]), ab.skip(1)));
            assert(carried(buf, ab) == carried(buf.push(a[0]), ab.skip(1)));
        } else if buf.len() > 0 {
            law_chunking(Seq::empty(), a.skip(1), b);
            let first = emitted(Seq::empty(), a.skip(1));
            let second = emitted(carried(Seq::empty(), a.skip(1)), b);
            assert(emitted(buf, ab) == seq![buf] + emitted(Seq::empty(), ab.skip(1)));
            assert(carried(buf, ab) == carried(Seq::empty(), ab.skip(1)));
            assert(seq![buf] + (first + second) =~= (seq![buf] + first) + second);
        } else {
            law_chunking(buf, a.skip(1), b);
            assert(emitted(buf, ab) == emitted(buf, ab.skip(1)));
            assert(carried(buf, ab) == carried(Seq::empty(), ab.skip(1)));
            assert(buf =~= Seq::empty());
        }
    }
}

/// Whether `record` can travel as a record: it is not empty and holds no
/// newline.
pub open spec fn is_record(record: Seq<u8>) -> bool {
    record.len() > 0 && forall|i: int| 0 <= i < record.len() ==> record[i] != NEWLINE
}

/// Reading a record's bytes after an empty partial record carries exactly
/// the record, and completes nothing.
pub proof fn lemma_record_is_carried(buf: Seq<u8>, record: Seq<u8>)
    requires
        forall|i: int| 0 <= i < record.len() ==> record[i] != NEWLINE,
    ensures
        emitted(buf, record) == Seq::<Seq<u8>>::empty(),
        carried(buf, record) == buf + record,
    decreases record.len(),
{
    if record.len() == 0 {
        assert(buf + record =~= buf);
    } else {
        assert forall|i: int| 0 <= i < record.skip(1).len() implies record.skip(1)[i]
            != NEWLINE by {
            assert(record.skip(1)[i] == record[i + 1]);
        }
        lemma_record_is_carried(buf.push(record[0]), record.skip(1));
        assert(buf.push(record[0]) + record.skip(1) =~= buf + record);
    }
}

/// A record followed by a newline is read back as that record.
pub proof fn law_record_round_trip(record: Seq<u8>)
    requires
        is_record(record),
    ensures
        emitted(Seq::empty(), record.push(NEWLINE)) == seq![record],
        carried(Seq::empty(), record.push(NEWLINE)) == Seq::<u8>::empty(),
{
    let line = seq![NEWLINE];
    assert(record.push(NEWLINE) =~= record + line);
    law_chunking(Seq::empty(), record, line);
    lemma_record_is_carried(Seq::empty(), record);
    assert(Seq::<u8>::empty() + record =~= record);
    assert(line.skip(1) =~= Seq::<u8>::empty());
    assert(emitted(record, line) =~= seq![record]) by {
        reveal_with_fuel(emitted, 2);
    }
    assert(carried(record, line) =~= Seq::<u8>::empty()) by {
        reveal_with_fuel(carried, 2);
    }
    assert(Seq::<Seq<u8>>::empty() + seq![record] =~= seq![record]);
}

/// What the cutter hands out at each step.
pub enum PullStep {
    /// A record that completed.
    Record(Vec<u8>),
    /// Nothing completed: every byte supplied is read, and more are needed.
    NeedBytes,
}

/// The cutter: the partial record, and the bytes supplied but not yet read.
pub struct PullStream {
    buf: Vec<u8>,
    left_over_bytes: Vec<u8>,
    at: usize,
}

/// The mathematical content of a `PullStream`.
pub ghost struct PullView {
    /// The partial record.
    pub buf: Seq<u8>,
    /// The bytes supplied and not yet read.
    pub pending: Seq<u8>,
}

impl View for PullStream {
    type V = PullView;

    closed spec fn view(&self) -> PullView {
        PullView {
            buf: self.buf@,
            pending: if self.at <= self.left_over_bytes@.len() {
                self.left_over_bytes@.skip(self.at as int)
            } else {
                Seq::empty()
            },
        }
    }
}

impl PullView {
    /// The records that the bytes not yet read will complete.
    pub open spec fn ahead(self) -> Seq<Seq<u8>> {
        emitted(self.buf, self.pending)
    }

    /// The partial record that will be left when every byte is read.
    pub open spec fn tail(self) -> Seq<u8> {
        carried(self.buf, self.pending)
    }
}

/// What one step of the cutter does: the first record ahead is handed
/// out, and the others stay ahead; with none ahead, every byte is read.
pub open spec fn step_outcome(before: PullView, after: PullView, step: PullStep) -> bool {
    if before.ahead().len() > 0 {
        &&& step matches PullStep::Record(record)
        &&& record@ == before.ahead()[0]
        &&& after.ahead() == before.ahead().skip(1)
        &&& after.tail() == before.tail()
    } else {
        &&& step is NeedBytes
        &&& after.pending.len() == 0
        &&& after.buf == before.tail()
    }
}

impl PullStream {
    /// A cutter that has read nothing.
    pub fn new() -> (s: Self)
        ensures
            s@.buf.len() == 0,
            s@.pending.len() == 0,
    {
        PullStream { buf: Vec::new(), left_over_bytes: Vec::new(), at: 0 }
    }

    /// Supplies the next chunk of the stream.
    pub fn supply(&mut self, chunk: Vec<u8>)
        ensures
            final(self)@.buf == old(self)@.buf,
            final(self)@.pending == old(self)@.pending + chunk@,
    {
        if self.at >= self.left_over_bytes.len() {
            self.left_over_bytes = chunk;
            self.at = 0;
            assert(self@.pending =~= old(self)@.pending + chunk@);
        } else {
            let mut i: usize = 0;
            while i < chunk.len()
                invariant
                    i <= chunk.len(),
                    self.at == old(self).at,
                    self.at < old(self).left_over_bytes@.len(),
                    self.buf == old(self).buf,
                    self.left_over_bytes@ == old(self).left_over_bytes@ + chunk@.take(i as int),
                decreases chunk.len() - i,
            {
                self.left_over_bytes.push(chunk[i]);
                assert(chunk@.take(i + 1) =~= chunk@.take(i as int).push(chunk@[i as int]));
                assert(self.left_over_bytes@ =~= old(self).left_over_bytes@ + chunk@.take(i + 1));
                i = i + 1;
            }
            assert(chunk@.take(chunk@.len() as int) =~= chunk@);
            assert(self@.pending =~= old(self)@.pending + chunk@);
        }
    }

    /// Reads on until a record completes or the bytes run out.
    pub fn next_record(&mut self) -> (step: PullStep)
        ensures
            step_outcome(old(self)@, final(self)@, step),
    {
        if self.at > self.left_over_bytes.len() {
            self.at = self.left_over_bytes.len();
        }
        assert(self@.pending =~= old(self)@.pending);
        while self.at < self.left_over_bytes.len()
            invariant
                self.at <= self.left_over_bytes@.len(),
                self@.ahead() == old(self)@.ahead(),
                self@.tail() == old(self)@.tail(),
            decreases self.left_over_bytes@.len() - self.at,
        {
            let byte = self.left_over_bytes[self.at];
            let ghost before = self@;
            assert(before.pending[0] == byte);
            assert(before.pending.skip(1) =~= self.left_over_bytes@.skip(self.at + 1));
            self.at = self.at + 1;
            if byte != NEWLINE {
                self.buf.push(byte);
                assert(self@.buf == before.buf.push(byte));
                assert(self@.pending == before.pending.skip(1));
                assert(before.ahead() == emitted(before.buf.push(byte), before.pending.skip(1)));
                assert(before.tail() == carried(before.buf.push(byte), before.pending.skip(1)));
            } else if self.buf.len() > 0 {
                let mut record: Vec<u8> = Vec::new();
                std::mem::swap(&mut record, &mut self.buf);
                proof {
                    assert(self@.buf =~= Seq::<u8>::empty());
                    assert(self@.pending == before.pending.skip(1));
                    let rest = emitted(Seq::empty(), self@.pending);
                    assert(before.ahead() == seq![record@] + rest);
                    assert((seq![record@] + rest).skip(1) =~= rest);
                    assert(before.tail() == carried(Seq::empty(), before.pending.skip(1)));
                }
                return PullStep::Record(record);
            } else {
                assert(self@.buf =~= Seq::<u8>::empty());
                assert(self@.pending == before.pending.skip(1));
                assert(before.ahead() == emitted(before.buf, before.pending.skip(1)));
                assert(before.tail() == carried(Seq::empty(), before.pending.skip(1)));
            }
        }
        assert(self@.pending =~= Seq::<u8>::empty());
        PullStep::NeedBytes
    }

    /// The partial record: the bytes read since the last record.
    pub fn partial(&self) -> (r: &Vec<u8>)
        ensures
            r@ == self@.buf,
    {
        &self.buf
    }
}

/// The records of a whole body, for a caller that has it in one piece.
pub fn parse_records(body: Vec<u8>) -> (records: Vec<Vec<u8>>)
    ensures
        records@.len() == emitted(Seq::empty(), body@).len(),
        forall|i: int|
            0 <= i < records@.len() ==> (#[trigger] records@[i])@ == emitted(
                Seq::empty(),
                body@,
            )[i],
{
    let mut stream = PullStream::new();
    let ghost all = emitted(Seq::<u8>::empty(), body@);
    stream.supply(body);
    assert(stream@.pending =~= body@);
    assert(stream@.buf =~= Seq::<u8>::empty());
    assert(all.skip(0) =~= all);
    let mut records: Vec<Vec<u8>> = Vec::new();
    loop
        invariant
            records@.len() + stream@.ahead().len() == all.len(),
            stream@.ahead() == all.skip(records@.len() as int),
            forall|i: int| 0 <= i < records@.len() ==> (#[trigger] records@[i])@ == all[i],
        ensures
            records@.len() == all.len(),
            forall|i: int| 0 <= i < records@.len() ==> (#[trigger] records@[i])@ == all[i],
        decreases stream@.ahead().len(),
    {
        let ghost before = stream@;
        match stream.next_record() {
            PullStep::Record(record) => {
                assert(all.skip(records@.len() as int)[0] == all[records@.len() as int]);
                assert(all.skip(records@.len() as int).skip(1) =~= all.skip(
                    records@.len() as int + 1,
                ));
                records.push(record);
            },
            PullStep::NeedBytes => {
                break ;
            },
        }
    }
    records
}

} // verus!
