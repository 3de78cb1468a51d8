//! The per-node log: an append-only, newline-delimited byte stream capped at
//! 5 MiB.  When an append pushes the stream past the cap, whole records are
//! discarded from the front until the remainder fits, so the kept content is
//! always a suffix of the stream that starts at a record boundary.

use vstd::prelude::*;

verus! {

use vstd::string::StringSliceAdditionalSpecFns;
use vstd::string::StrSliceExecFns;

/// Size cap of one node's log, in bytes.
pub const MAX_LOG_SIZE: usize = 5 * 1024 * 1024;

/// The newline byte that terminates every record.
pub const NL: u8 = 10;

/// Index of the first newline at or after `i`, or `s.len()` when none
/// follows.
pub open spec fn first_nl_from(s: Seq<u8>, i: int) -> int
    decreases s.len() - i,
{
    if i < 0 || i >= s.len() {
        s.len() as int
    } else if s[i] == NL {
        i
    } else {
        first_nl_from(s, i + 1)
    }
}

/// The stream after trimming: unchanged while within the cap; otherwise the
/// longest suffix that fits in the cap and begins just after a newline.
/// The search starts one byte before the excess point, so a record boundary
/// sitting exactly at the cap keeps the full cap's worth.
pub open spec fn trim_spec(s: Seq<u8>) -> Seq<u8> {
    if s.len() <= MAX_LOG_SIZE {
        s
    } else {
        let j = first_nl_from(s, s.len() - MAX_LOG_SIZE - 1);
        if j < s.len() {
            s.skip(j + 1)
        } else {
            Seq::empty()
        }
    }
}

/// Trimming always lands within the cap, whatever the stream holds.
pub proof fn lemma_trim_len(s: Seq<u8>)
    ensures
        trim_spec(s).len() <= MAX_LOG_SIZE,
{
    if s.len() > MAX_LOG_SIZE {
        lemma_first_nl_bounds(s, s.len() - MAX_LOG_SIZE - 1);
    }
}

pub proof fn lemma_first_nl_bounds(s: Seq<u8>, i: int)
    requires
        0 <= i <= s.len(),
    ensures
        i <= first_nl_from(s, i) <= s.len(),
        first_nl_from(s, i) < s.len() ==> s[first_nl_from(s, i)] == NL,
        forall|k: int| i <= k < first_nl_from(s, i) ==> s[k] != NL,
    decreases s.len() - i,
{
    if i < s.len() && s[i] != NL {
        lemma_first_nl_bounds(s, i + 1);
    }
}

/// The trimmed stream fits in the cap, and it is a suffix of the original
/// stream that starts right after a newline — never in the middle of a
/// record.  This is stated for streams made of newline-terminated records.
pub proof fn lemma_trim_keeps_record_suffix(s: Seq<u8>)
    requires
        s.len() == 0 || s.last() == NL,
    ensures
        trim_spec(s).len() <= MAX_LOG_SIZE,
        exists|k: int|
            0 <= k <= s.len() && trim_spec(s) == s.skip(k) && (k == 0 || s[k - 1]
                == NL),
{
    lemma_trim_len(s);
    if s.len() <= MAX_LOG_SIZE {
        assert(trim_spec(s) =~= s.skip(0));
        assert(0 <= 0 <= s.len() && trim_spec(s) == s.skip(0));
    } else {
        let from = s.len() - MAX_LOG_SIZE - 1;
        lemma_first_nl_bounds(s, from);
        let j = first_nl_from(s, from);
        assert(j < s.len()) by {
            if j == s.len() {
                assert(s[s.len() - 1] != NL);
            }
        }
        assert(trim_spec(s) == s.skip(j + 1));
        assert(s.skip(j + 1).len() == s.len() - j - 1);
        assert(0 <= j + 1 <= s.len() && trim_spec(s) == s.skip(j + 1) && s[j + 1 - 1]
            == NL);
    }
}

/// One node's in-memory log content; the caller persists it as the log file.
pub struct LogBuffer {
    bytes: Vec<u8>,
}

impl LogBuffer {
    /// The log's byte content.
    pub closed spec fn content(&self) -> Seq<u8> {
        self.bytes@
    }

    /// An empty log, as `create` starts one for a new node.
    pub fn new() -> (r: Self)
        ensures
            r.content() == Seq::<u8>::empty(),
    {
        LogBuffer { bytes: Vec::new() }
    }

    /// Adopts existing log bytes, trimming them to the cap.
    pub fn from_bytes(v: Vec<u8>) -> (r: Self)
        ensures
            r.content() == trim_spec(v@),
            r.content().len() <= MAX_LOG_SIZE,
    {
        proof {
            lemma_trim_len(v@);
        }
        LogBuffer { bytes: trim_to_cap(v) }
    }

    /// Current size in bytes.
    pub fn size(&self) -> (r: usize)
        ensures
            r == self.content().len(),
    {
        self.bytes.len()
    }

    /// Read-only access to the content, for persisting it.
    pub fn as_bytes(&self) -> (r: &Vec<u8>)
        ensures
            r@ == self.content(),
    {
        &self.bytes
    }

    /// Appends one newline-terminated record holding the UTF-8 bytes of
    /// `line`, then trims the stream to the cap.
    pub fn append_record(&mut self, line: &str)
        ensures
            final(self).content() == trim_spec(
                old(self).content() + line.spec_bytes() + seq![NL],
            ),
            final(self).content().len() <= MAX_LOG_SIZE,
    {
        proof {
            lemma_trim_len(old(self).content() + line.spec_bytes() + seq![NL]);
        }
        let mut add = line.as_bytes_vec();
        let ghost before = self.bytes@;
        self.bytes.append(&mut add);
        self.bytes.push(NL);
        proof {
            assert(self.bytes@ =~= before + line.spec_bytes() + seq![NL]);
        }
        let mut taken: Vec<u8> = Vec::new();
        core::mem::swap(&mut self.bytes, &mut taken);
        self.bytes = trim_to_cap(taken);
    }
}

/// Trims a byte stream to the cap by discarding whole records at the front.
fn trim_to_cap(v: Vec<u8>) -> (r: Vec<u8>)
    ensures
        r@ == trim_spec(v@),
{
    let n = v.len();
    if n <= MAX_LOG_SIZE {
        return v;
    }
    let from = n - MAX_LOG_SIZE - 1;
    let mut j = from;
    proof {
        lemma_first_nl_bounds(v@, from as int);
    }
    while j < n && v[j] != NL
        invariant
            n == v@.len(),
            from <= j <= n,
            first_nl_from(v@, from as int) == first_nl_from(v@, j as int),
        decreases n - j,
    {
        j = j + 1;
    }
    proof {
        lemma_first_nl_bounds(v@, j as int);
    }
    if j == n {
        proof {
            assert(first_nl_from(v@, from as int) == n);
            assert(trim_spec(v@) =~= Seq::<u8>::empty());
        }
        return Vec::new();
    }
    proof {
        assert(first_nl_from(v@, from as int) == j);
    }
    let mut out: Vec<u8> = Vec::new();
    let mut k = j + 1;
    while k < n
        invariant
            n == v@.len(),
            j + 1 <= k <= n,
            j < n,
            out@ =~= v@.subrange(j + 1, k as int),
        decreases n - k,
    {
        let b = v[k];
        out.push(b);
        k = k + 1;
    }
    proof {
        assert(out@ =~= v@.skip(j + 1));
    }
    out
}

/// The log text as served to a reader: the records joined by newlines, i.e.
/// the byte stream without its final newline.
pub open spec fn joined_spec(s: Seq<u8>) -> Seq<u8> {
    if s.len() > 0 && s.last() == NL {
        s.drop_last()
    } else {
        s
    }
}

/// Joins the records of a persisted log for display: drops the final
/// newline, leaving the newlines between records in place.
pub fn joined_log_text(v: &Vec<u8>) -> (r: Vec<u8>)
    ensures
        r@ == joined_spec(v@),
{
    let n = v.len();
    let keep = if n > 0 && v[n - 1] == NL {
        n - 1
    } else {
        n
    };
    let mut out: Vec<u8> = Vec::new();
    let mut i: usize = 0;
    while i < keep
        invariant
            keep <= n,
            n == v@.len(),
            i <= keep,
            out@ =~= v@.subrange(0, i as int),
        decreases keep - i,
    {
        let b = v[i];
        out.push(b);
        i = i + 1;
    }
    proof {
        if n > 0 && v@.last() == NL {
            assert(out@ =~= v@.drop_last());
        } else {
            assert(out@ =~= v@);
        }
    }
    out
}


} // verus!
