//! The bodies of inserts: rows one behind the other, compressed on the way where
//! that is wanted.
use crate::error::PipeError;
use std::io::Write;
use vstd::prelude::*;

verus! {

/// An encoder that compresses what is written to it: a
/// `flate2::write::GzEncoder` over a vector.
#[verifier::external_body]
pub struct Gzip {
    encoder: flate2::write::GzEncoder<Vec<u8>>,
}

/// What has been written to an encoder.
pub uninterp spec fn gzip_input(encoder: Gzip) -> Seq<u8>;

/// What a gzip decoder makes of some bytes.
pub uninterp spec fn gunzip(bytes: Seq<u8>) -> Option<Seq<u8>>;

/// `flate2::write::GzEncoder::new` at a level, over an empty vector: nothing has
/// been written to it. The level bears on how long the result is, and not on what
/// is read out of it.
#[verifier::external_body]
fn gzip_start(level: u32) -> (r: Gzip)
    requires
        level <= 9,
    ensures
        gzip_input(r) == Seq::<u8>::empty(),
{
    Gzip { encoder: flate2::write::GzEncoder::new(Vec::new(), flate2::Compression::new(level)) }
}

/// `std::io::Write::write_all` on the encoder: all of the bytes have been written
/// behind the others. It succeeds, since the vector under the encoder takes every
/// byte and the encoder has not been finished.
#[verifier::external_body]
fn gzip_write(encoder: &mut Gzip, bytes: &[u8]) -> (r: Result<(), std::io::Error>)
    ensures
        r is Ok,
        gzip_input(*final(encoder)) == gzip_input(*old(encoder)) + bytes@,
{
    encoder.encoder.write_all(bytes)
}

/// `flate2::write::GzEncoder::finish`: a decoder reads what was written out of the
/// bytes that it hands back. It succeeds, since the vector under the encoder takes
/// every byte.
#[verifier::external_body]
fn gzip_finish(encoder: Gzip) -> (r: Result<Vec<u8>, std::io::Error>)
    ensures
        match r {
            Ok(body) => gunzip(body@) == Some(gzip_input(encoder)),
            Err(_) => false,
        },
{
    encoder.encoder.finish()
}

/// How many rows are put into the body at a time. In between, other work gets
/// its turn.
pub const ROWS_PER_CHUNK: usize = 256;

/// How hard to compress: as fast as can be, since more costs several times the
/// work for little.
const COMPRESSION_LEVEL: u32 = 1;

/// What is said where compressing fails.
pub const COMPRESSION_FAILED: &'static str = "压缩 ClickHouse 请求体失败";

/// Gathers the body of an insert.
enum BodyBuffer {
    Gzip(Gzip),
    Plain(Vec<u8>),
}

impl BodyBuffer {
    spec fn input(self) -> Seq<u8> {
        match self {
            BodyBuffer::Gzip(encoder) => gzip_input(encoder),
            BodyBuffer::Plain(bytes) => bytes@,
        }
    }

    fn new(compress: bool) -> (r: BodyBuffer)
        ensures
            r.input() == Seq::<u8>::empty(),
            r is Gzip == compress,
    {
        if compress {
            BodyBuffer::Gzip(gzip_start(COMPRESSION_LEVEL))
        } else {
            BodyBuffer::Plain(Vec::new())
        }
    }

    fn push(&mut self, bytes: &[u8]) -> (r: Result<(), PipeError>)
        ensures
            match r {
                Ok(_) => final(self).input() == old(self).input() + bytes@,
                Err(_) => false,
            },
            *final(self) is Gzip == *old(self) is Gzip,
    {
        match self {
            BodyBuffer::Gzip(encoder) => match gzip_write(encoder, bytes) {
                Ok(_) => Ok(()),
                Err(err) => Err(PipeError::Io(COMPRESSION_FAILED.to_owned(), err)),
            },
            BodyBuffer::Plain(buf) => {
                buf.extend_from_slice(bytes);
                Ok(())
            },
        }
    }

    fn finish(self) -> (r: Result<(Vec<u8>, bool), PipeError>)
        ensures
            match r {
                Ok((body, compressed)) => compressed == self is Gzip && carries(
                    body@,
                    compressed,
                    self.input(),
                ),
                Err(_) => false,
            },
    {
        match self {
            BodyBuffer::Gzip(encoder) => match gzip_finish(encoder) {
                Ok(body) => Ok((body, true)),
                Err(err) => Err(PipeError::Io(COMPRESSION_FAILED.to_owned(), err)),
            },
            BodyBuffer::Plain(buf) => Ok((buf, false)),
        }
    }
}

/// A body stands for some bytes: it is them, or is decompressed into them.
pub open spec fn carries(body: Seq<u8>, compressed: bool, bytes: Seq<u8>) -> bool {
    if compressed {
        gunzip(body) == Some(bytes)
    } else {
        body == bytes
    }
}

/// Rows one behind the other, each ended by a line feed.
pub open spec fn framed(rows: Seq<Seq<u8>>) -> Seq<u8>
    decreases rows.len(),
{
    if rows.len() == 0 {
        Seq::empty()
    } else {
        framed(rows.drop_last()) + rows.last() + seq![10u8]
    }
}

/// An insert while its rows are gathered.
pub struct Insert {
    body: BodyBuffer,
    chunk: Vec<u8>,
    in_chunk: usize,
    rows: Ghost<Seq<Seq<u8>>>,
}

/// What an [`Insert`] says: the rows so far, and whether they are compressed.
#[verifier::ext_equal]
pub struct InsertView {
    pub rows: Seq<Seq<u8>>,
    pub compress: bool,
}

impl View for Insert {
    type V = InsertView;

    closed spec fn view(&self) -> InsertView {
        InsertView { rows: self.rows@, compress: self.body is Gzip }
    }
}

impl Insert {
    /// What has been gathered are the rows, none lost and none cut.
    pub closed spec fn wf(&self) -> bool {
        &&& self.body.input() + self.chunk@ == framed(self.rows@)
        &&& self.in_chunk == self.rows@.len() % 256
        &&& self.in_chunk == 0 ==> self.chunk@.len() == 0
    }

    /// An insert without rows.
    pub fn new(compress: bool) -> (r: Insert)
        ensures
            r.wf(),
            r@ == (InsertView { rows: Seq::empty(), compress }),
    {
        let r = Insert {
            body: BodyBuffer::new(compress),
            chunk: Vec::new(),
            in_chunk: 0,
            rows: Ghost(Seq::empty()),
        };
        assert(r.body.input() + r.chunk@ =~= framed(r.rows@));
        r
    }

    /// Adds a row. True where a chunk is full, so that other work should get its
    /// turn.
    pub fn push_row(&mut self, row: &[u8]) -> (r: Result<bool, PipeError>)
        requires
            old(self).wf(),
        ensures
            match r {
                Ok(full) => {
                    &&& final(self).wf()
                    &&& final(self)@ == (InsertView {
                        rows: old(self)@.rows.push(row@),
                        ..old(self)@
                    })
                    &&& full == (final(self)@.rows.len() % 256 == 0)
                },
                Err(_) => false,
            },
    {
        let ghost before = self.rows@;
        let ghost gathered = self.body.input() + self.chunk@;
        self.chunk.extend_from_slice(row);
        self.chunk.push(10);
        self.rows = Ghost(before.push(row@));
        proof {
            assert(self.rows@.drop_last() =~= before);
            assert(self.body.input() + self.chunk@ =~= gathered + row@ + seq![10u8]);
        }
        self.in_chunk = self.in_chunk + 1;
        if self.in_chunk == ROWS_PER_CHUNK {
            match self.body.push(self.chunk.as_slice()) {
                Ok(_) => {},
                Err(err) => {
                    return Err(err);
                },
            }
            self.chunk = Vec::new();
            self.in_chunk = 0;
            assert(self.body.input() + self.chunk@ =~= framed(self.rows@));
            Ok(true)
        } else {
            Ok(false)
        }
    }

    /// The body, and whether it is compressed.
    pub fn finish(self) -> (r: Result<(Vec<u8>, bool), PipeError>)
        requires
            self.wf(),
        ensures
            match r {
                Ok((body, compressed)) => compressed == self@.compress && carries(
                    body@,
                    compressed,
                    framed(self@.rows),
                ),
                Err(_) => false,
            },
    {
        let mut body = self.body;
        assert(self.chunk@.len() == 0 ==> body.input() + self.chunk@ =~= body.input());
        if self.in_chunk > 0 {
            match body.push(self.chunk.as_slice()) {
                Ok(_) => {},
                Err(err) => {
                    return Err(err);
                },
            }
        }
        body.finish()
    }
}

/// Rows without line feeds.
pub open spec fn single_lines(rows: Seq<Seq<u8>>) -> bool {
    forall|i: int, k: int| 0 <= i < rows.len() && 0 <= k < rows[i].len() ==> #[trigger] rows[i][k]
        != 10
}

/// The last of two rows is as long in both, where the rows one behind the other
/// are the same.
proof fn lemma_last_row(a: Seq<Seq<u8>>, b: Seq<Seq<u8>>)
    requires
        a.len() > 0,
        b.len() > 0,
        single_lines(b),
        framed(a) == framed(b),
    ensures
        a.last().len() >= b.last().len(),
{
    let before = framed(a.drop_last());
    if a.last().len() < b.last().len() {
        let whole = framed(a);
        let start = framed(b.drop_last()).len() as int;
        assert(whole.len() == before.len() + a.last().len() + 1);
        assert(framed(b).len() == start + b.last().len() + 1);
        if before.len() > 0 {
            let at = before.len() - 1;
            assert(before[at] == 10);
            assert(whole[at] == before[at]);
            assert(framed(b)[at] == b.last()[at - start]);
            assert(b[b.len() - 1][at - start] != 10);
        }
    }
}

/// The rows can be told from the body: those without line feeds come back as they
/// were, as many and in the same order.
pub proof fn lemma_rows_read_back(a: Seq<Seq<u8>>, b: Seq<Seq<u8>>)
    requires
        single_lines(a),
        single_lines(b),
        framed(a) == framed(b),
    ensures
        a == b,
    decreases a.len(),
{
    if a.len() == 0 || b.len() == 0 {
        assert(a.len() == 0 ==> framed(a).len() == 0);
        assert(b.len() == 0 ==> framed(b).len() == 0);
        assert(a =~= b);
    } else {
        lemma_last_row(a, b);
        lemma_last_row(b, a);
        let whole = framed(a);
        let n = framed(a.drop_last()).len() as int;
        let m = whole.len() - 1;
        assert(n == framed(b.drop_last()).len());
        assert(whole.take(n) =~= framed(a.drop_last()));
        assert(whole.take(n) =~= framed(b.drop_last()));
        assert(whole.subrange(n, m) =~= a.last());
        assert(whole.subrange(n, m) =~= b.last());
        assert forall|i: int, k: int|
            0 <= i < a.len() - 1 && 0 <= k < a.drop_last()[i].len() implies #[trigger] a.drop_last(
        )[i][k] != 10 by {
            assert(a[i][k] != 10);
        }
        assert forall|i: int, k: int|
            0 <= i < b.len() - 1 && 0 <= k < b.drop_last()[i].len() implies #[trigger] b.drop_last(
        )[i][k] != 10 by {
            assert(b[i][k] != 10);
        }
        lemma_rows_read_back(a.drop_last(), b.drop_last());
        assert(a =~= a.drop_last().push(a.last()));
        assert(b =~= b.drop_last().push(b.last()));
    }
}

} // verus!
