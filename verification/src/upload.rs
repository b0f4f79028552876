//! The upload pipeline: choosing and sanitizing the destination filename,
//! ingesting the byte stream chunk by chunk under a bounded buffer, and the
//! commit / reject-empty / rollback decisions.

use vstd::prelude::*;

use crate::errors::AppError;
use crate::ext::{b64_decode, b64_decode_of, check_utf8, sanitize_name, sanitized_of, utf8_ok};
use crate::paths::extend_bytes;

verus! {

/// Decimal digits of `n`, most significant first.
pub open spec fn dec_rep(n: nat) -> Seq<u8>
    decreases n,
{
    if n < 10 {
        seq![(48 + n) as u8]
    } else {
        dec_rep(n / 10).push((48 + n % 10) as u8)
    }
}

/// The generated default filename for a timestamp in milliseconds:
/// `upload_<millis>.bin`.
pub open spec fn gen_name_of(millis: i64) -> Seq<u8> {
    let digits = if millis < 0 {
        seq![45u8] + dec_rep((-millis) as nat)
    } else {
        dec_rep(millis as nat)
    };
    seq![117u8, 112u8, 108u8, 111u8, 97u8, 100u8, 95u8] + digits + seq![
        46u8,
        98u8,
        105u8,
        110u8,
    ]
}

fn push_dec(n: u64, out: &mut Vec<u8>)
    ensures
        final(out)@ == old(out)@ + dec_rep(n as nat),
    decreases n,
{
    if n < 10 {
        out.push(48 + n as u8);
        proof {
            assert(old(out)@ + dec_rep(n as nat) =~= old(out)@.push((48 + n as nat) as u8));
        }
    } else {
        push_dec(n / 10, out);
        out.push(48 + (n % 10) as u8);
        proof {
            assert((n as nat) / 10 == (n / 10) as nat);
            assert((n as nat) % 10 == (n % 10) as nat);
            assert(old(out)@ + dec_rep(n as nat) =~= (old(out)@ + dec_rep((n as nat) / 10)).push(
                (48 + (n as nat) % 10) as u8,
            ));
        }
    }
}

/// Builds the generated default filename `upload_<millis>.bin`.
pub fn gen_filename(millis: i64) -> (r: Vec<u8>)
    ensures
        r@ == gen_name_of(millis),
{
    let mut r: Vec<u8> = Vec::new();
    r.push(117);
    r.push(112);
    r.push(108);
    r.push(111);
    r.push(97);
    r.push(100);
    r.push(95);
    if millis < 0 {
        r.push(45);
        let mag: u64 = (-(millis as i128)) as u64;
        proof {
            assert(mag as nat == (-millis) as nat);
        }
        push_dec(mag, &mut r);
    } else {
        push_dec(millis as u64, &mut r);
    }
    r.push(46);
    r.push(98);
    r.push(105);
    r.push(110);
    proof {
        assert(r@ =~= gen_name_of(millis));
    }
    r
}

/// The view of an optional header value.
pub open spec fn opt_bytes(o: Option<&Vec<u8>>) -> Option<Seq<u8>> {
    match o {
        Some(v) => Some(v@),
        None => None,
    }
}

/// The chosen, sanitized destination filename. Precedence: a base64
/// filename header wins when present, and is refused as a bad request when
/// it does not decode to valid UTF-8; otherwise a plain filename header,
/// which must be nonempty valid UTF-8; otherwise the generated timestamp
/// name. Either header's name is sanitized — a second safety net beyond the
/// target directory's containment check, since these names arrive in
/// headers, not as resolved path segments.
pub open spec fn chosen_name_of(
    b64: Option<Seq<u8>>,
    plain: Option<Seq<u8>>,
    millis: i64,
) -> Result<Seq<u8>, AppError> {
    match b64 {
        Some(h) => match b64_decode_of(h) {
            Some(d) => if utf8_ok(d) {
                Result::Ok(sanitized_of(d))
            } else {
                Result::Err(AppError::BadRequest)
            },
            None => Result::Err(AppError::BadRequest),
        },
        None => match plain {
            Some(p) => if p.len() > 0 && utf8_ok(p) {
                Result::Ok(sanitized_of(p))
            } else {
                Result::Err(AppError::BadRequest)
            },
            None => Result::Ok(gen_name_of(millis)),
        },
    }
}

/// Chooses and sanitizes the destination filename from the optional
/// base64-encoded and plain filename headers, falling back to a generated
/// `upload_<millis>.bin` name.
pub fn choose_filename(b64: Option<&Vec<u8>>, plain: Option<&Vec<u8>>, millis: i64) -> (r: Result<
    Vec<u8>,
    AppError,
>)
    ensures
        (match r {
            Ok(name) => chosen_name_of(opt_bytes(b64), opt_bytes(plain), millis) == Result::<
                Seq<u8>,
                AppError,
            >::Ok(name@),
            Err(e) => chosen_name_of(opt_bytes(b64), opt_bytes(plain), millis) == Result::<
                Seq<u8>,
                AppError,
            >::Err(e),
        }),
{
    match b64 {
        Some(h) => {
            match b64_decode(h.as_slice()) {
                Some(decoded) => {
                    if check_utf8(decoded.as_slice()) {
                        Ok(sanitize_name(decoded.as_slice()))
                    } else {
                        Err(AppError::BadRequest)
                    }
                },
                None => Err(AppError::BadRequest),
            }
        },
        None => {
            match plain {
                Some(p) => {
                    if p.len() > 0 && check_utf8(p.as_slice()) {
                        Ok(sanitize_name(p.as_slice()))
                    } else {
                        Err(AppError::BadRequest)
                    }
                },
                None => Ok(gen_filename(millis)),
            }
        },
    }
}

/// An upload target that resolved to something other than a directory is
/// the client's mistake.
pub fn require_directory(is_dir: bool) -> (r: Result<(), AppError>)
    ensures
        r == if is_dir {
            Result::<(), AppError>::Ok(())
        } else {
            Result::<(), AppError>::Err(AppError::BadRequest)
        },
{
    if is_dir {
        Ok(())
    } else {
        Err(AppError::BadRequest)
    }
}

/// Buffered upload bytes are handed out for writing once this many have
/// gathered, so memory stays bounded however large the upload.
pub const FLUSH_THRESHOLD: usize = 4 * 1024 * 1024;

/// Streaming ingestion state for one upload: every received byte is either
/// already handed out for writing or still buffered, and nothing else is
/// ever written.
pub struct UploadIngestor {
    buffer: Vec<u8>,
    any_flushed: bool,
    flushed: Ghost<Seq<u8>>,
}

/// How a finished upload is committed: the remaining buffered tail is
/// written and the file kept, or — when nothing at all was received — no
/// bytes are written and the just-created file is removed.
pub enum UploadFinish {
    /// Write this tail, then keep the file.
    Commit(Vec<u8>),
    /// Nothing arrived: delete the file and answer with a client error.
    RejectEmpty,
}

impl UploadIngestor {
    /// All bytes handed out for writing so far.
    pub closed spec fn flushed_bytes(self) -> Seq<u8> {
        self.flushed@
    }

    /// All bytes received so far.
    pub closed spec fn received(self) -> Seq<u8> {
        self.flushed@ + self.buffer@
    }

    /// The ingestor's invariant.
    pub closed spec fn wf(self) -> bool {
        self.any_flushed <==> self.flushed@.len() > 0
    }

    /// A fresh ingestor that has received nothing.
    pub fn new() -> (r: Self)
        ensures
            r.wf(),
            r.received() == Seq::<u8>::empty(),
            r.flushed_bytes() == Seq::<u8>::empty(),
    {
        let r = UploadIngestor { buffer: Vec::new(), any_flushed: false, flushed: Ghost(
            Seq::empty(),
        ) };
        proof {
            assert(r.received() =~= Seq::<u8>::empty());
        }
        r
    }

    /// Takes one arriving chunk. When bytes come back, the caller must
    /// append exactly those bytes to the destination file before anything
    /// else happens to the upload.
    pub fn push_chunk(&mut self, chunk: &[u8]) -> (out: Option<Vec<u8>>)
        requires
            old(self).wf(),
        ensures
            final(self).wf(),
            final(self).received() == old(self).received() + chunk@,
            final(self).received().len() < final(self).flushed_bytes().len() + FLUSH_THRESHOLD,
            match out {
                Some(w) => final(self).flushed_bytes() == old(self).flushed_bytes() + w@,
                None => final(self).flushed_bytes() == old(self).flushed_bytes(),
            },
    {
        extend_bytes(&mut self.buffer, chunk);
        proof {
            assert(self.flushed@ + self.buffer@ =~= old(self).received() + chunk@);
        }
        if self.buffer.len() >= FLUSH_THRESHOLD {
            let w = self.buffer.split_off(0);
            self.any_flushed = true;
            proof {
                assert(w@ =~= old(self).buffer@ + chunk@);
                assert(self.buffer@ =~= Seq::<u8>::empty());
            }
            let ghost f0 = self.flushed@;
            self.flushed = Ghost(f0 + w@);
            proof {
                assert(self.flushed@ + self.buffer@ =~= old(self).received() + chunk@);
            }
            Some(w)
        } else {
            None
        }
    }

    /// Ends the stream: a nonempty upload commits — the written prefix plus
    /// the returned tail is exactly what was received — and an empty one is
    /// rejected.
    pub fn finish(self) -> (r: UploadFinish)
        requires
            self.wf(),
        ensures
            match r {
                UploadFinish::Commit(tail) => self.received().len() > 0 && self.flushed_bytes()
                    + tail@ == self.received(),
                UploadFinish::RejectEmpty => self.received().len() == 0,
            },
    {
        let UploadIngestor { buffer, any_flushed, flushed } = self;
        if !any_flushed && buffer.len() == 0 {
            proof {
                assert(flushed@ + buffer@ =~= Seq::<u8>::empty());
            }
            UploadFinish::RejectEmpty
        } else {
            UploadFinish::Commit(buffer)
        }
    }
}

/// How the transfer itself ended.
pub enum StreamEnd {
    /// The whole stream arrived and every write succeeded.
    Completed,
    /// The client's stream broke off or produced an error mid-transfer.
    ClientAbort,
    /// A write to the destination file failed.
    WriteFail,
    /// The final flush to the destination file failed.
    FlushFail,
}

/// What the controller must answer, and whether the destination file must
/// be removed so that no partial or empty upload is ever left discoverable.
pub struct UploadVerdict {
    /// The HTTP status to answer.
    pub status: u16,
    /// Whether the created file must be deleted.
    pub delete_file: bool,
}

/// The commit / reject / rollback rule of an upload: only a completed,
/// nonempty transfer keeps its file; an empty one and every mid-transfer
/// failure — the client aborting, a failed write or flush — deletes it. A
/// broken client stream answers `400`, a server-side write or flush failure
/// `500`, an empty upload `400`, and success `200`.
pub fn upload_verdict(end: StreamEnd, received_empty: bool) -> (v: UploadVerdict)
    ensures
        v == (match end {
            StreamEnd::Completed => if received_empty {
                UploadVerdict { status: 400, delete_file: true }
            } else {
                UploadVerdict { status: 200, delete_file: false }
            },
            StreamEnd::ClientAbort => UploadVerdict { status: 400, delete_file: true },
            StreamEnd::WriteFail => UploadVerdict { status: 500, delete_file: true },
            StreamEnd::FlushFail => UploadVerdict { status: 500, delete_file: true },
        }),
{
    match end {
        StreamEnd::Completed => {
            if received_empty {
                UploadVerdict { status: 400, delete_file: true }
            } else {
                UploadVerdict { status: 200, delete_file: false }
            }
        },
        StreamEnd::ClientAbort => UploadVerdict { status: 400, delete_file: true },
        StreamEnd::WriteFail => UploadVerdict { status: 500, delete_file: true },
        StreamEnd::FlushFail => UploadVerdict { status: 500, delete_file: true },
    }
}

} // verus!
