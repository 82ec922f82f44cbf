//! The copy-to-bucket sink's decisions: splitting the destination URL,
//! naming the numbered output files, the per-row actions of the copy
//! operator, and the rotation of one multi-part upload into the next.
//!
//! The uploads themselves, and the object-store client that performs them,
//! stay outside; everything here is the bookkeeping that decides what they
//! are asked to do.

use crate::ids::{dec_digits, push_decimal};
use core::str::FromStr;
use vstd::prelude::*;
use vstd::string::StrSliceExecFns;
use vstd::string::StringExecFns;

verus! {

/// The host of the given URI text, if the text parses and has one.
pub uninterp spec fn uri_host_of(s: Seq<char>) -> Option<Seq<char>>;

/// The path of the given URI text.
pub uninterp spec fn uri_path_of(s: Seq<char>) -> Seq<char>;

/// Relies on http's `Uri`: `Uri::from_str` parses the text, and `host` and
/// `path` of the parsed value depend on the text alone. Yields the host and
/// path together, or nothing when the text does not parse to a URI with a
/// host.
#[verifier::external_body]
fn split_uri(s: &str) -> (r: Option<(String, String)>)
    ensures
        r matches Some(hp) ==> uri_host_of(s@) == Some(hp.0@) && hp.1@ == uri_path_of(s@),
        r is Some <==> uri_host_of(s@) is Some,
{
    match http::Uri::from_str(s) {
        Ok(uri) => match uri.host() {
            Some(h) => {
                let host = h.to_owned();
                let path = uri.path().to_owned();
                Some((host, path))
            },
            None => None,
        },
        Err(_) => None,
    }
}

/// The text without its leading separator characters.
pub open spec fn trim_start_slashes(s: Seq<char>) -> Seq<char>
    decreases s.len(),
{
    if s.len() > 0 && s[0] == '/' {
        trim_start_slashes(s.drop_first())
    } else {
        s
    }
}

/// The text without its trailing separator characters.
pub open spec fn trim_end_slashes(s: Seq<char>) -> Seq<char>
    decreases s.len(),
{
    if s.len() > 0 && s.last() == '/' {
        trim_end_slashes(s.drop_last())
    } else {
        s
    }
}

/// The leading separators are a prefix; counting them names the suffix.
proof fn lemma_trim_start(s: Seq<char>, n: int)
    requires
        0 <= n <= s.len(),
        forall|i: int| 0 <= i < n ==> s[i] == '/',
        n == s.len() || s[n] != '/',
    ensures
        trim_start_slashes(s) == s.skip(n),
    decreases n,
{
    if n == 0 {
        assert(trim_start_slashes(s) =~= s.skip(0));
    } else {
        assert(s[0] == '/');
        let s2 = s.drop_first();
        assert forall|i: int| 0 <= i < n - 1 implies s2[i] == '/' by {
            assert(s2[i] == s[i + 1]);
        }
        if n - 1 < s2.len() {
            assert(s2[n - 1] == s[n]);
        }
        lemma_trim_start(s2, n - 1);
        assert(s2.skip(n - 1) =~= s.skip(n));
    }
}

/// The trailing separators are a suffix; counting them names the prefix.
proof fn lemma_trim_end(s: Seq<char>, n: int)
    requires
        0 <= n <= s.len(),
        forall|i: int| n <= i < s.len() ==> s[i] == '/',
        n == 0 || s[n - 1] != '/',
    ensures
        trim_end_slashes(s) == s.take(n),
    decreases s.len() - n,
{
    if n == s.len() {
        if s.len() > 0 {
            assert(s.last() != '/');
        }
        assert(trim_end_slashes(s) =~= s.take(n));
    } else {
        assert(s.last() == '/');
        let s2 = s.drop_last();
        lemma_trim_end(s2, n);
        assert(s2.take(n) =~= s.take(n));
    }
}

/// Split a bucket URL into its bucket and path: the bucket is the URL's
/// host, and the path is the URL's path shorn of leading and trailing
/// separators. Nothing comes back when the text is not a URL with a host.
pub fn extract_s3_bucket_path(prefix: &str) -> (r: Option<(String, String)>)
    ensures
        match r {
            Some(bp) => {
                &&& uri_host_of(prefix@) == Some(bp.0@)
                &&& bp.1@ == trim_end_slashes(trim_start_slashes(uri_path_of(prefix@)))
            },
            None => uri_host_of(prefix@) is None,
        },
{
    match split_uri(prefix) {
        None => None,
        Some((bucket, path)) => {
            let p = path.as_str();
            let n = p.unicode_len();
            let mut start: usize = 0;
            while start < n && p.get_char(start) == '/'
                invariant
                    start <= n,
                    n == p@.len(),
                    forall|i: int| 0 <= i < start ==> p@[i] == '/',
                decreases n - start,
            {
                start = start + 1;
            }
            proof {
                lemma_trim_start(p@, start as int);
            }
            let mut end: usize = n;
            while end > start && p.get_char(end - 1) == '/'
                invariant
                    start <= end <= n,
                    n == p@.len(),
                    forall|i: int| 0 <= i < start ==> p@[i] == '/',
                    forall|i: int| end <= i < n ==> p@[i] == '/',
                decreases end,
            {
                end = end - 1;
            }
            proof {
                let trimmed = p@.skip(start as int);
                assert(trim_start_slashes(p@) == trimmed);
                assert forall|i: int| end - start <= i < trimmed.len() implies trimmed[i]
                    == '/' by {
                    assert(trimmed[i] == p@[i + start]);
                }
                if end > start {
                    assert(trimmed[end - start - 1] == p@[end - 1]);
                }
                lemma_trim_end(trimmed, end - start);
                assert(trimmed.take(end - start) =~= p@.subrange(start as int, end as int));
            }
            let out = p.substring_char(start, end).to_owned();
            Some((bucket, out))
        },
    }
}

/// The decimal rendering of a number, zero-padded to at least four digits.
pub open spec fn pad4(n: int) -> Seq<char> {
    if n < 10 {
        seq!['0', '0', '0'] + dec_digits(n)
    } else if n < 100 {
        seq!['0', '0'] + dec_digits(n)
    } else if n < 1000 {
        seq!['0'] + dec_digits(n)
    } else {
        dec_digits(n)
    }
}

/// The name of one numbered output file:
/// `{path_prefix}/{file_name_prefix}-{index, zero-padded to four}.csv`.
pub open spec fn file_path_text(path_prefix: Seq<char>, name_prefix: Seq<char>, index: int) -> Seq<
    char,
> {
    path_prefix + "/"@ + name_prefix + "-"@ + pad4(index) + ".csv"@
}

/// The bookkeeping that rotates the copy sink through its numbered output
/// files: where they go, how they are named, which index is current, and
/// whether a multi-part upload is open.
pub struct UploaderPlan {
    /// The destination bucket.
    pub bucket: String,
    /// The path below the bucket, without surrounding separators.
    pub path_prefix: String,
    /// The prefix of every file this sink writes.
    pub file_name_prefix: String,
    /// A new file is started when the current one would exceed this.
    pub max_file_size: u64,
    /// The index of the current file; zero before the first file.
    pub file_index: usize,
    /// Whether a multi-part upload is currently open.
    pub upload_open: bool,
}

impl UploaderPlan {
    /// Set up the bookkeeping for one destination.
    pub fn new(
        bucket: String,
        path_prefix: String,
        file_name_prefix: String,
        max_file_size: u64,
    ) -> (r: UploaderPlan)
        ensures
            r.bucket@ == bucket@,
            r.path_prefix@ == path_prefix@,
            r.file_name_prefix@ == file_name_prefix@,
            r.max_file_size == max_file_size,
            r.file_index == 0,
            !r.upload_open,
    {
        UploaderPlan {
            bucket,
            path_prefix,
            file_name_prefix,
            max_file_size,
            file_index: 0,
            upload_open: false,
        }
    }

    /// The path of the current file.
    pub fn current_file_path(&self) -> (r: String)
        ensures
            r@ == file_path_text(self.path_prefix@, self.file_name_prefix@, self.file_index as int),
    {
        proof {
            reveal_strlit("/");
            reveal_strlit("-");
            reveal_strlit(".csv");
            reveal_strlit("0");
            reveal_strlit("00");
            reveal_strlit("000");
        }
        let mut s = self.path_prefix.clone();
        s.append("/");
        s.append(self.file_name_prefix.as_str());
        s.append("-");
        if self.file_index < 10 {
            s.append("000");
        } else if self.file_index < 100 {
            s.append("00");
        } else if self.file_index < 1000 {
            s.append("0");
        }
        push_decimal(&mut s, self.file_index as u64);
        s.append(".csv");
        proof {
            assert(s@ =~= file_path_text(
                self.path_prefix@,
                self.file_name_prefix@,
                self.file_index as int,
            ));
        }
        s
    }

    /// Advance to the next file and open its upload: the index steps up and
    /// the new file's path is handed back for the uploader to create.
    pub fn start_new_file(&mut self) -> (r: String)
        requires
            !old(self).upload_open,
            old(self).file_index < usize::MAX,
        ensures
            final(self).file_index == old(self).file_index + 1,
            final(self).upload_open,
            final(self).bucket@ == old(self).bucket@,
            final(self).path_prefix@ == old(self).path_prefix@,
            final(self).file_name_prefix@ == old(self).file_name_prefix@,
            final(self).max_file_size == old(self).max_file_size,
            r@ == file_path_text(
                old(self).path_prefix@,
                old(self).file_name_prefix@,
                old(self).file_index + 1,
            ),
    {
        self.file_index = self.file_index + 1;
        self.upload_open = true;
        self.current_file_path()
    }

    /// Record that the open upload, if any, was finished.
    pub fn finish_upload(&mut self)
        ensures
            *final(self) == (UploaderPlan { upload_open: false, ..*old(self) }),
    {
        self.upload_open = false;
    }
}

/// How one buffered-chunk upload ended.
#[derive(Clone, Copy, Debug, PartialEq, Eq, Structural)]
pub enum UploadOutcome {
    /// The chunk was accepted.
    Accepted,
    /// The chunk would push the file past its size limit.
    ExceedsFileLimit,
    /// The upload failed for any other reason.
    Failed,
}

/// What the copy sink does after a buffered-chunk upload: an accepted chunk
/// finishes the append; a chunk past the file size limit rotates to a new
/// file and is retried there, once; anything else fails the sink.
#[derive(Clone, Copy, Debug, PartialEq, Eq, Structural)]
pub enum AppendAction {
    /// The row is appended; nothing more to do.
    Finish,
    /// Start the next file and upload the chunk there.
    RotateAndRetry,
    /// Fail the copy.
    Fail,
}

/// Decide the follow-up to a buffered-chunk upload.
pub fn append_retry(outcome: UploadOutcome) -> (r: AppendAction)
    ensures
        outcome == UploadOutcome::Accepted ==> r == AppendAction::Finish,
        outcome == UploadOutcome::ExceedsFileLimit ==> r == AppendAction::RotateAndRetry,
        outcome == UploadOutcome::Failed ==> r == AppendAction::Fail,
{
    match outcome {
        UploadOutcome::Accepted => AppendAction::Finish,
        UploadOutcome::ExceedsFileLimit => AppendAction::RotateAndRetry,
        UploadOutcome::Failed => AppendAction::Fail,
    }
}

/// Whether the copy's cut-off frontier has passed a time: with a totally
/// ordered logical time the frontier is a single bound, or nothing once it
/// is empty, which no time is beyond.
pub fn up_to_less_equal(up_to: Option<u64>, ts: u64) -> (r: bool)
    ensures
        r <==> (up_to matches Some(b) && b <= ts),
{
    match up_to {
        Some(b) => b <= ts,
        None => false,
    }
}

/// What to do with one row of the copy's input.
#[derive(Clone, Copy, Debug, PartialEq, Eq, Structural)]
pub enum RowAction {
    /// The row lies at or past the cut-off: not part of the copied
    /// snapshot.
    Skip,
    /// A retraction reached the copy: the input is inconsistent and the
    /// copy fails.
    FailRetraction,
    /// Append the row this many times.
    Append(u64),
}

/// Decide what one `(time, diff)` pair of the copy's input means: rows at
/// or past the cut-off are skipped, retractions below it fail the copy, and
/// anything else is appended with its multiplicity.
pub fn row_action(up_to: Option<u64>, ts: u64, diff: i64) -> (r: RowAction)
    ensures
        (up_to matches Some(b) && b <= ts) ==> r == RowAction::Skip,
        !(up_to matches Some(b) && b <= ts) && diff < 0 ==> r == RowAction::FailRetraction,
        !(up_to matches Some(b) && b <= ts) && diff >= 0 ==> r == RowAction::Append(diff as u64),
{
    if up_to_less_equal(up_to, ts) {
        RowAction::Skip
    } else if diff < 0 {
        RowAction::FailRetraction
    } else {
        RowAction::Append(diff as u64)
    }
}

/// Add an appended row's multiplicity to the running row count; nothing
/// comes back when the total no longer fits.
pub fn accumulate_row_count(count: u64, copies: u64) -> (r: Option<u64>)
    ensures
        match r {
            Some(c) => c == count + copies,
            None => count + copies > u64::MAX,
        },
{
    count.checked_add(copies)
}

} // verus!
