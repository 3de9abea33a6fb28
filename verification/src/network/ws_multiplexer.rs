//! Sequence tracking and field extraction for a multiplexed message stream.
use vstd::prelude::*;
use vstd::slice::slice_subrange;
use vstd::string::*;

verus! {

pub const MAX_MESSAGE_SIZE: usize = 65536;

pub const MAX_PENDING_MESSAGES: usize = 1024;

/// Sequence-tracked WebSocket message
pub struct WsMessage {
    pub sequence_id: u64,
    pub payload: Vec<u8>,
    pub timestamp_ns: u64,
}

/// The bytes that introduce a field: its quoted name and a colon.
pub open spec fn field_label(name: Seq<u8>) -> Seq<u8> {
    seq![34u8] + name + seq![34u8, 58u8]
}

pub open spec fn occurs_at(data: Seq<u8>, label: Seq<u8>, i: int) -> bool {
    i + label.len() <= data.len() && data.subrange(i, i + label.len()) == label
}

/// The first place at or behind `from` where a label occurs.
pub open spec fn first_label(data: Seq<u8>, label: Seq<u8>, from: int) -> Option<int>
    decreases data.len() + 1 - from,
{
    if from + label.len() > data.len() {
        None
    } else if occurs_at(data, label, from) {
        Some(from)
    } else {
        first_label(data, label, from + 1)
    }
}

/// Where a value that starts at `from` ends: at the next comma or closing
/// brace, or with the data.
pub open spec fn value_end(data: Seq<u8>, from: int) -> int
    decreases data.len() - from,
{
    if from >= data.len() || data[from] == 44 || data[from] == 125 {
        from
    } else {
        value_end(data, from + 1)
    }
}

/// The text of a field's value.
pub open spec fn field_value(data: Seq<u8>, name: Seq<u8>) -> Option<Seq<u8>> {
    let label = field_label(name);
    match first_label(data, label, 0) {
        None => None,
        Some(at) => {
            let start = at + label.len();
            if start < data.len() {
                Some(data.subrange(start, value_end(data, start)))
            } else {
                None
            }
        },
    }
}

/// JSON field parser with a fixed copy buffer
pub struct JsonParser {
    pub buffer: Vec<u8>,
    pub position: usize,
}

impl JsonParser {
    pub open spec fn wf(&self) -> bool {
        self.buffer.len() == MAX_MESSAGE_SIZE && self.position <= MAX_MESSAGE_SIZE
    }

    /// The message that was copied last.
    pub open spec fn copied(&self) -> Seq<u8> {
        self.buffer@.subrange(0, self.position as int)
    }

    pub fn new() -> (r: Self)
        ensures
            r.wf(),
            r.position == 0,
            forall|i: int| 0 <= i < r.buffer.len() ==> #[trigger] r.buffer@[i] == 0,
    {
        JsonParser { buffer: vec![0u8; MAX_MESSAGE_SIZE], position: 0 }
    }

    /// Parse JSON field without allocation (returns slice into the data)
    pub fn parse_field<'a>(&mut self, data: &'a [u8], field: &str) -> (r: Option<&'a [u8]>)
        requires
            old(self).wf(),
        ensures
            final(self).wf(),
            if data@.len() > MAX_MESSAGE_SIZE {
                r is None && *final(self) == *old(self)
            } else {
                &&& final(self).copied() == data@
                &&& match r {
                    Some(v) => field_value(data@, field.spec_bytes()) == Some(v@),
                    None => field_value(data@, field.spec_bytes()) is None,
                }
            },
    {
        if data.len() > MAX_MESSAGE_SIZE {
            return None;
        }
        self.store(data);
        let name: &[u8] = field.as_bytes();
        let label: Vec<u8> = make_label(name);
        match find_label(data, &label) {
            None => None,
            Some(at) => {
                let start: usize = at + label.len();
                if start < data.len() {
                    let end: usize = find_value_end(data, start);
                    Some(slice_subrange(data, start, end))
                } else {
                    None
                }
            },
        }
    }

    /// Copies a message to the internal buffer.
    fn store(&mut self, data: &[u8])
        requires
            old(self).wf(),
            data@.len() <= MAX_MESSAGE_SIZE,
        ensures
            final(self).wf(),
            final(self).copied() == data@,
    {
        let n: usize = data.len();
        let mut i: usize = 0;
        while i < n
            invariant
                i <= n,
                n == data@.len(),
                n <= MAX_MESSAGE_SIZE,
                self.buffer.len() == MAX_MESSAGE_SIZE,
                forall|k: int| 0 <= k < i ==> #[trigger] self.buffer@[k] == data@[k],
            decreases n - i,
        {
            self.buffer.set(i, data[i]);
            i = i + 1;
        }
        self.position = n;
        assert(self.copied() =~= data@);
    }
}

fn make_label(name: &[u8]) -> (r: Vec<u8>)
    ensures
        r@ == field_label(name@),
{
    let mut label: Vec<u8> = Vec::new();
    label.push(34);
    label.extend_from_slice(name);
    label.push(34);
    label.push(58);
    assert(label@ =~= field_label(name@));
    label
}

fn matches_at(data: &[u8], label: &Vec<u8>, at: usize) -> (r: bool)
    requires
        at + label@.len() <= data@.len(),
    ensures
        r == occurs_at(data@, label@, at as int),
{
    let total: usize = data.len();
    let mut i: usize = 0;
    while i < label.len()
        invariant
            i <= label.len(),
            total == data@.len(),
            at + label@.len() <= total,
            forall|k: int| 0 <= k < i ==> data@[at + k] == #[trigger] label@[k],
        decreases label.len() - i,
    {
        if data[at + i] != label[i] {
            proof {
                assert(data@.subrange(at as int, at + label@.len())[i as int] != label@[i as int]);
            }
            return false;
        }
        i = i + 1;
    }
    proof {
        assert(data@.subrange(at as int, at + label@.len()) =~= label@);
    }
    true
}

fn find_label(data: &[u8], label: &Vec<u8>) -> (r: Option<usize>)
    requires
        data@.len() <= MAX_MESSAGE_SIZE,
        label@.len() > 0,
    ensures
        match r {
            Some(at) => first_label(data@, label@, 0) == Some(at as int) && at + label@.len()
                <= data@.len(),
            None => first_label(data@, label@, 0) is None,
        },
{
    let total: usize = data.len();
    if label.len() > total {
        return None;
    }
    let last: usize = total - label.len();
    let mut at: usize = 0;
    while at <= last
        invariant
            total == data@.len(),
            total <= MAX_MESSAGE_SIZE,
            last + label@.len() == total,
            at <= last + 1,
            first_label(data@, label@, 0) == first_label(data@, label@, at as int),
        decreases last + 1 - at,
    {
        if matches_at(data, label, at) {
            return Some(at);
        }
        at = at + 1;
    }
    None
}

fn find_value_end(data: &[u8], start: usize) -> (r: usize)
    requires
        start <= data@.len(),
    ensures
        r == value_end(data@, start as int),
        start <= r <= data@.len(),
{
    let mut end: usize = start;
    while end < data.len() && data[end] != 44 && data[end] != 125
        invariant
            start <= end <= data@.len(),
            value_end(data@, start as int) == value_end(data@, end as int),
        decreases data@.len() - end,
    {
        end = end + 1;
    }
    end
}

impl Default for JsonParser {
    fn default() -> (r: Self)
        ensures
            r.wf(),
            r.position == 0,
            forall|i: int| 0 <= i < r.buffer.len() ==> #[trigger] r.buffer@[i] == 0,
    {
        JsonParser::new()
    }
}

/// WebSocket multiplexer with sequence tracking
pub struct WsMultiplexer {
    pub expected_sequence: u64,
    pub received_count: u64,
    pub desync_count: u64,
    pub is_active: bool,
    pub parser: JsonParser,
}

impl WsMultiplexer {
    pub open spec fn wf(&self) -> bool {
        self.parser.wf()
    }

    pub fn new() -> (r: Self)
        ensures
            r.wf(),
            r.expected_sequence == 0,
            r.received_count == 0,
            r.desync_count == 0,
            r.is_active,
    {
        WsMultiplexer {
            expected_sequence: 0,
            received_count: 0,
            desync_count: 0,
            is_active: true,
            parser: JsonParser::new(),
        }
    }

    /// What a message is refused with, if it is.
    pub open spec fn refusal(&self, data: Seq<u8>) -> Option<Seq<char>> {
        if !self.is_active {
            Some("Multiplexer inactive"@)
        } else if data.len() > MAX_MESSAGE_SIZE {
            Some("Message exceeds maximum size"@)
        } else {
            None
        }
    }

    /// Process incoming message with sequence validation. A message out of
    /// order is taken and counted, and the expected number stays.
    pub fn process_message(&mut self, data: &[u8], seq_id: u64) -> (r: Result<(), &'static str>)
        requires
            old(self).wf(),
        ensures
            final(self).wf(),
            match old(self).refusal(data@) {
                Some(m) => (r matches Err(e) && e@ == m) && *final(self) == *old(self),
                None => {
                    &&& r is Ok
                    &&& final(self).is_active == old(self).is_active
                    &&& final(self).received_count == old(self).received_count.wrapping_add(1)
                    &&& final(self).parser.copied() == data@
                    &&& final(self).expected_sequence == (if seq_id == old(self).expected_sequence {
                        seq_id.wrapping_add(1)
                    } else {
                        old(self).expected_sequence
                    })
                    &&& final(self).desync_count == (if seq_id == old(self).expected_sequence {
                        old(self).desync_count
                    } else {
                        old(self).desync_count.wrapping_add(1)
                    })
                },
            },
    {
        if !self.is_active {
            return Err("Multiplexer inactive");
        }
        if data.len() > MAX_MESSAGE_SIZE {
            return Err("Message exceeds maximum size");
        }
        let expected: u64 = self.expected_sequence;
        if seq_id != expected {
            self.desync_count = self.desync_count.wrapping_add(1);
        }
        let _ = self.parser.parse_field(data, "data");
        self.received_count = self.received_count.wrapping_add(1);
        if seq_id == expected {
            self.expected_sequence = seq_id.wrapping_add(1);
        }
        Ok(())
    }

    /// Messages received, out of order, and the number expected next.
    pub fn stats(&self) -> (r: (u64, u64, u64))
        ensures
            r == (self.received_count, self.desync_count, self.expected_sequence),
    {
        (self.received_count, self.desync_count, self.expected_sequence)
    }

    pub fn shutdown(&mut self)
        ensures
            *final(self) == (WsMultiplexer { is_active: false, ..*old(self) }),
    {
        self.is_active = false;
    }
}

impl Default for WsMultiplexer {
    fn default() -> (r: Self)
        ensures
            r.wf(),
            r.expected_sequence == 0,
            r.received_count == 0,
            r.desync_count == 0,
            r.is_active,
    {
        WsMultiplexer::new()
    }
}

/// A value never contains a comma or a closing brace, and stops only there or
/// at the end of the data.
pub proof fn law_value_is_delimited(data: Seq<u8>, from: int)
    requires
        0 <= from <= data.len(),
    ensures
        from <= value_end(data, from) <= data.len(),
        forall|i: int|
            from <= i < value_end(data, from) ==> #[trigger] data[i] != 44 && data[i] != 125,
        value_end(data, from) < data.len() ==> data[value_end(data, from)] == 44
            || data[value_end(data, from)] == 125,
    decreases data.len() - from,
{
    if from < data.len() && data[from] != 44 && data[from] != 125 {
        law_value_is_delimited(data, from + 1);
    }
}

/// A label found first is really there, and not before.
pub proof fn law_first_label(data: Seq<u8>, label: Seq<u8>, from: int)
    requires
        0 <= from,
    ensures
        match first_label(data, label, from) {
            Some(at) => from <= at && occurs_at(data, label, at) && forall|i: int|
                from <= i < at ==> !occurs_at(data, label, i),
            None => forall|i: int| from <= i ==> !occurs_at(data, label, i),
        },
    decreases data.len() + 1 - from,
{
    if from + label.len() <= data.len() && !occurs_at(data, label, from) {
        law_first_label(data, label, from + 1);
    }
}

/// The value of a field is what follows its quoted name and a colon, up to the
/// next comma or closing brace, at the first place where the name stands so.
pub proof fn law_value_follows_its_name(
    before: Seq<u8>,
    name: Seq<u8>,
    value: Seq<u8>,
    after: Seq<u8>,
)
    requires
        after.len() > 0,
        after[0] == 0x2C || after[0] == 0x7D,
        forall|i: int| 0 <= i < value.len() ==> #[trigger] value[i] != 0x2C && value[i] != 0x7D,
        ({
            let label = seq![0x22u8] + name + seq![0x22u8, 0x3Au8];
            let data = before + label + value + after;
            forall|i: int|
                0 <= i < before.len() ==> (#[trigger] data.subrange(i, i + label.len())) != label
        }),
    ensures
        ({
            let label = seq![0x22u8] + name + seq![0x22u8, 0x3Au8];
            field_value(before + label + value + after, name) == Some(value)
        }),
{
    let label = seq![0x22u8] + name + seq![0x22u8, 0x3Au8];
    let data = before + label + value + after;
    assert(field_label(name) == label);
    let at = before.len() as int;
    assert(data.subrange(at, at + label.len()) =~= label);
    law_first_label(data, label, 0);
    assert(occurs_at(data, label, at));
    let found = first_label(data, label, 0)->0;
    if found < at {
        assert(data.subrange(found, found + label.len()) == label);
    }
    assert(found == at);
    let start = at + label.len();
    law_value_is_delimited(data, start);
    let end = value_end(data, start);
    let stop = start + value.len();
    assert(data[stop] == after[0]);
    if end < stop {
        assert(data[end] == value[end - start]);
    }
    if end > stop {
        assert(data[stop] != 44 && data[stop] != 125);
    }
    assert(data.subrange(start, stop) =~= value);
}

/// A field that is not named anywhere has no value.
pub proof fn law_unnamed_field_has_no_value(data: Seq<u8>, name: Seq<u8>)
    requires
        ({
            let label = seq![0x22u8] + name + seq![0x22u8, 0x3Au8];
            forall|i: int|
                0 <= i && i + label.len() <= data.len() ==> (#[trigger] data.subrange(
                    i,
                    i + label.len(),
                )) != label
        }),
    ensures
        field_value(data, name) is None,
{
    let label = seq![0x22u8] + name + seq![0x22u8, 0x3Au8];
    assert(field_label(name) == label);
    law_first_label(data, label, 0);
    if let Some(at) = first_label(data, label, 0) {
        assert(data.subrange(at, at + label.len()) == label);
    }
}

/// A message is refused exactly where the multiplexer is switched off or the
/// message is larger than sixty-four kibibytes.
pub proof fn law_refused_messages(m: WsMultiplexer, data: Seq<u8>)
    ensures
        m.refusal(data) is None <==> m.is_active && data.len() <= 65536,
        !m.is_active ==> m.refusal(data) == Some("Multiplexer inactive"@),
        m.is_active && data.len() > 65536 ==> m.refusal(data) == Some(
            "Message exceeds maximum size"@,
        ),
{
}

} // verus!
