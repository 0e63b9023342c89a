//! Accounting for one streaming download: the destination filename derived
//! from the URL, and a byte counter driven by the arriving chunks, clamped so
//! that reported progress never exceeds the declared total.
use vstd::prelude::*;
use vstd::string::*;

verus! {

/// Why a download failed.
#[derive(Clone, Copy, PartialEq, Eq, Structural, Debug)]
pub enum DownloadError {
    /// The URL has no non-empty final path segment to name the file after.
    BadUrl,
    /// The response declared no content length, so progress cannot be
    /// tracked.
    NoContentLength,
    /// The connection failed or the body stream broke off.
    Network,
    /// The destination file could not be created or written.
    Io,
}

/// Why fetching a listing page failed.
#[derive(Clone, Copy, PartialEq, Eq, Structural, Debug)]
pub enum FetchError {
    /// The connection, name resolution, or request itself failed.
    Network,
    /// The response body could not be read as text.
    Decode,
}

/// Position where the final '/'-delimited segment of `s` begins: just past
/// the last '/' of `s`, or 0 when `s` contains none.
pub open spec fn last_segment_start(s: Seq<char>) -> int
    decreases s.len(),
{
    if s.len() == 0 {
        0
    } else if s.last() == '/' {
        s.len() as int
    } else {
        last_segment_start(s.drop_last())
    }
}

/// The final '/'-delimited segment of `s`.
pub open spec fn last_segment(s: Seq<char>) -> Seq<char> {
    s.subrange(last_segment_start(s), s.len() as int)
}

/// Derives the destination filename of a download: the final '/'-delimited
/// segment of `url`, or `DownloadError::BadUrl` when that segment is empty.
pub fn filename_of(url: &str) -> (r: Result<String, DownloadError>)
    ensures
        match r {
            Ok(name) => name@ == last_segment(url@) && name@.len() > 0,
            Err(e) => e == DownloadError::BadUrl && last_segment(url@).len() == 0,
        },
{
    let n = url.unicode_len();
    let mut start: usize = 0;
    let mut i: usize = 0;
    proof {
        assert(url@.take(0) =~= Seq::<char>::empty());
    }
    while i < n
        invariant
            n == url@.len(),
            i <= n,
            start <= i,
            start as int == last_segment_start(url@.take(i as int)),
        decreases n - i,
    {
        proof {
            assert(url@.take(i + 1).drop_last() =~= url@.take(i as int));
            assert(url@.take(i + 1).last() == url@[i as int]);
        }
        if url.get_char(i) == '/' {
            start = i + 1;
        }
        i = i + 1;
    }
    proof {
        assert(url@.take(n as int) =~= url@);
    }
    if start == n {
        Err(DownloadError::BadUrl)
    } else {
        let name = url.substring_char(start, n);
        Ok(String::from_str(name))
    }
}

/// The byte counter after applying `chunks` in order against a declared
/// total of `total` bytes: each chunk adds its length, clamped at `total`.
pub open spec fn written_after(total: u64, chunks: Seq<u64>) -> int
    decreases chunks.len(),
{
    if chunks.len() == 0 {
        0
    } else {
        let prev = written_after(total, chunks.drop_last());
        if prev + chunks.last() <= total {
            prev + chunks.last()
        } else {
            total as int
        }
    }
}

/// The sum of the chunk lengths actually delivered.
pub open spec fn chunk_sum(chunks: Seq<u64>) -> int
    decreases chunks.len(),
{
    if chunks.len() == 0 {
        0
    } else {
        chunk_sum(chunks.drop_last()) + chunks.last()
    }
}

/// The progress accounting of one streaming download.
pub struct DownloadSession {
    /// Declared total size in bytes.
    pub total: u64,
    /// Bytes accounted so far, clamped to `total`.
    pub written: u64,
    /// The byte length of each chunk applied so far.
    pub chunks: Ghost<Seq<u64>>,
}

impl DownloadSession {
    /// The counter stands exactly where applying the recorded chunks leaves
    /// it, and never beyond the declared total.
    pub open spec fn wf(self) -> bool {
        &&& self.written as int == written_after(self.total, self.chunks@)
        &&& self.written <= self.total
    }

    /// Opens the accounting for a response that declared `total` bytes.
    pub fn new(total: u64) -> (s: Self)
        ensures
            s.wf(),
            s.total == total,
            s.written == 0,
            s.chunks@ == Seq::<u64>::empty(),
    {
        DownloadSession { total, written: 0, chunks: Ghost(Seq::empty()) }
    }

    /// Accounts for one arrived chunk of `len` bytes: the counter grows by
    /// `len`, clamped so it never exceeds the declared total, and never
    /// shrinks.
    pub fn apply_chunk(&mut self, len: u64)
        requires
            old(self).wf(),
        ensures
            final(self).wf(),
            final(self).total == old(self).total,
            final(self).chunks@ == old(self).chunks@.push(len),
            final(self).written as int == if old(self).written + len <= old(self).total {
                old(self).written + len
            } else {
                old(self).total as int
            },
            old(self).written <= final(self).written,
    {
        let ghost previous = self.chunks@;
        if len <= self.total - self.written {
            self.written = self.written + len;
        } else {
            self.written = self.total;
        }
        self.chunks = Ghost(previous.push(len));
        proof {
            assert(previous.push(len).drop_last() =~= previous);
        }
    }

    /// The download is complete: the counter has reached the declared total.
    pub fn is_complete(&self) -> (b: bool)
        ensures
            b == (self.written == self.total),
    {
        self.written == self.total
    }
}

/// A download needs the response to declare its size, or progress cannot be
/// tracked: passes the declared length through, or fails with
/// `DownloadError::NoContentLength` when the server omitted it.
pub fn require_content_length(declared: Option<u64>) -> (r: Result<u64, DownloadError>)
    ensures
        match r {
            Ok(n) => declared == Some(n),
            Err(e) => e == DownloadError::NoContentLength && declared is None,
        },
{
    match declared {
        Some(n) => Ok(n),
        None => Err(DownloadError::NoContentLength),
    }
}

/// However the body is cut into chunks, the counter never exceeds the
/// declared total; as long as the delivered bytes sum to at most the total
/// it equals their sum exactly; and once they sum to at least the total it
/// stands exactly at the total.
pub proof fn lemma_progress(total: u64, chunks: Seq<u64>)
    ensures
        0 <= written_after(total, chunks) <= total,
        chunk_sum(chunks) <= total ==> written_after(total, chunks) == chunk_sum(chunks),
        chunk_sum(chunks) >= total ==> written_after(total, chunks) == total,
    decreases chunks.len(),
{
    if chunks.len() > 0 {
        lemma_progress(total, chunks.drop_last());
    }
}

/// The progress law read off a live session: once the chunks a session has
/// applied sum to at least the declared total its counter stands exactly at
/// the total, and while they sum to less it equals their sum.
pub proof fn lemma_session_progress(s: DownloadSession)
    requires
        s.wf(),
    ensures
        chunk_sum(s.chunks@) >= s.total ==> s.written == s.total,
        chunk_sum(s.chunks@) <= s.total ==> s.written as int == chunk_sum(s.chunks@),
{
    lemma_progress(s.total, s.chunks@);
}

} // verus!
