//! Crash reports and the wiping of secrets.
use crate::text;
use crate::text::append_u64;
use vstd::prelude::*;
use vstd::string::*;

verus! {

/// Memory for secrets, which can be wiped
pub struct SecureKeyBuffer {
    pub data: Vec<u8>,
    pub wiped: bool,
}

pub open spec fn all_zero(s: Seq<u8>) -> bool {
    forall|i: int| 0 <= i < s.len() ==> #[trigger] s[i] == 0
}

impl SecureKeyBuffer {
    /// Once wiped, nothing is left of the secret.
    pub open spec fn wf(&self) -> bool {
        self.wiped ==> all_zero(self.data@)
    }

    /// Create a new secure buffer
    pub fn new(data: &[u8]) -> (r: Self)
        ensures
            r.wf(),
            r.data@ == data@,
            !r.wiped,
    {
        let mut copy: Vec<u8> = Vec::new();
        copy.extend_from_slice(data);
        assert(copy@ =~= data@);
        SecureKeyBuffer { data: copy, wiped: false }
    }

    /// Securely wipe the buffer: zeros, a pattern, zeros again
    pub fn wipe(&mut self)
        requires
            old(self).wf(),
        ensures
            final(self).wf(),
            final(self).wiped,
            all_zero(final(self).data@),
            final(self).data.len() == old(self).data.len(),
    {
        if self.wiped {
            return;
        }
        self.overwrite(false);
        self.overwrite(true);
        self.overwrite(false);
        self.wiped = true;
    }

    /// Overwrites every byte, with its position or with zero.
    fn overwrite(&mut self, pattern: bool)
        ensures
            final(self).data.len() == old(self).data.len(),
            final(self).wiped == old(self).wiped,
            forall|i: int|
                0 <= i < final(self).data.len() ==> #[trigger] final(self).data@[i] == (if pattern {
                    (i % 256) as u8
                } else {
                    0
                }),
    {
        let mut i: usize = 0;
        while i < self.data.len()
            invariant
                i <= self.data.len(),
                self.data.len() == old(self).data.len(),
                self.wiped == old(self).wiped,
                forall|k: int|
                    0 <= k < i ==> #[trigger] self.data@[k] == (if pattern {
                        (k % 256) as u8
                    } else {
                        0
                    }),
            decreases self.data.len() - i,
        {
            let byte: u8 = if pattern {
                (i % 256) as u8
            } else {
                0
            };
            self.data.set(i, byte);
            i = i + 1;
        }
    }

    /// Get reference to data
    pub fn as_ref(&self) -> (r: &[u8])
        ensures
            r@ == self.data@,
    {
        self.data.as_slice()
    }
}

/// Lets the first panic through to the handler, and no other
pub struct PanicGate {
    pub in_progress: bool,
}

impl PanicGate {
    pub fn new() -> (r: Self)
        ensures
            !r.in_progress,
    {
        PanicGate { in_progress: false }
    }

    /// Whether a panic is the first; any other aborts at once
    pub fn enter(&mut self) -> (first: bool)
        ensures
            first == !old(self).in_progress,
            final(self).in_progress,
    {
        let first: bool = !self.in_progress;
        self.in_progress = true;
        first
    }
}

/// Where a panic happened
pub fn location_text(file: &str, line: u32, column: u32) -> (r: String)
    ensures
        r@ == file@ + ":"@ + text::decimal(line as nat) + ":"@ + text::decimal(column as nat),
{
    let mut s: String = file.to_owned();
    s.append(":");
    append_u64(&mut s, line as u64);
    s.append(":");
    append_u64(&mut s, column as u64);
    s
}

/// The text of a crash report.
pub open spec fn report_text(
    timestamp_ms: u64,
    message: Seq<char>,
    location: Seq<char>,
    backtrace: Seq<char>,
) -> Seq<char> {
    "=== FATAL CRASH DUMP ===\nTimestamp: "@ + text::decimal(timestamp_ms as nat) + "\nMessage: "@
        + message + "\nLocation: "@ + location + "\nBacktrace:\n"@ + backtrace
        + "\n=== END CRASH DUMP ===\n\n"@
}

/// Builds a crash report
pub fn crash_report(timestamp_ms: u64, message: &str, location: &str, backtrace: &str) -> (r:
    String)
    ensures
        r@ == report_text(timestamp_ms, message@, location@, backtrace@),
{
    let mut s: String = "=== FATAL CRASH DUMP ===\nTimestamp: ".to_owned();
    append_u64(&mut s, timestamp_ms);
    s.append("\nMessage: ");
    s.append(message);
    s.append("\nLocation: ");
    s.append(location);
    s.append("\nBacktrace:\n");
    s.append(backtrace);
    s.append("\n=== END CRASH DUMP ===\n\n");
    s
}

/// Register a sensitive buffer; its owner wipes it
pub fn register_sensitive_buffer(buffer: SecureKeyBuffer) -> (r: SecureKeyBuffer)
    ensures
        r == buffer,
{
    buffer
}

/// A report tells when and why the program stopped, and where.
pub proof fn law_report_tells_the_cause(
    timestamp_ms: u64,
    message: Seq<char>,
    location: Seq<char>,
    backtrace: Seq<char>,
)
    ensures
        ({
            let t = report_text(timestamp_ms, message, location, backtrace);
            &&& ("=== FATAL CRASH DUMP ===\nTimestamp: "@ + text::decimal(timestamp_ms as nat)
                + "\nMessage: "@ + message).is_prefix_of(t)
            &&& ("\nLocation: "@ + location + "\nBacktrace:\n"@ + backtrace
                + "\n=== END CRASH DUMP ===\n\n"@).is_suffix_of(t)
        }),
{
    let t = report_text(timestamp_ms, message, location, backtrace);
    let h = "=== FATAL CRASH DUMP ===\nTimestamp: "@ + text::decimal(timestamp_ms as nat)
        + "\nMessage: "@ + message;
    let e = "\nLocation: "@ + location + "\nBacktrace:\n"@ + backtrace
        + "\n=== END CRASH DUMP ===\n\n"@;
    assert(t =~= h + e);
    assert(h =~= t.subrange(0, h.len() as int));
    assert(e =~= t.subrange(t.len() - e.len(), t.len() as int));
}

} // verus!
