//! Runtime-sized v0 BLE fragment envelope.
//!
//! Every fragment carries a sixteen-byte header: version, flags, a reserved
//! 16-bit field, then the big-endian transfer identity, total length, and
//! payload offset, followed by the payload bytes.
use vstd::prelude::*;

verus! {

/// Bytes in the fixed fragment header.
pub const HEADER_BYTES: usize = 16;

/// Flag marking the first fragment of a transfer.
pub const START: u8 = 1;

/// Flag marking the last fragment of a transfer.
pub const END: u8 = 2;

/// Smallest accepted transport value limit: the header plus four payload bytes.
pub const MIN_FRAME_LIMIT: usize = 20;

/// A stable framing failure category.
#[derive(Clone, Copy, Debug, PartialEq, Eq)]
pub enum FramingError {
    /// Selected ATT value is too small for the envelope plus four payload bytes.
    TransportLimitTooSmall,
    /// Logical message is empty.
    EmptyMessage,
    /// Logical message exceeds the negotiated maximum.
    MessageTooLarge,
    /// A fragment exceeds the negotiated transport value limit.
    FrameTooLarge,
    /// No fragment was supplied, or the first lacked `START`.
    MissingStart,
    /// Fragment is shorter than the fixed envelope.
    ShortHeader,
    /// Framing version is not v0.
    UnsupportedVersion,
    /// Reserved flag bits were set.
    UnknownFlags,
    /// Reserved envelope field was nonzero.
    NonzeroReserved,
    /// A later fragment incorrectly carried `START`.
    UnexpectedStart,
    /// Transfer identity changed before completion.
    InterleavedTransfer,
    /// Total length changed before completion.
    ChangedTotalLength,
    /// Fragment offset introduced a gap or overlap.
    GapOrOverlap,
    /// Payload extends beyond the declared total.
    PayloadPastTotal,
    /// `END` appeared before the declared total.
    EarlyEnd,
    /// No fragment carried `END`.
    MissingEnd,
    /// Bytes followed the completed transfer.
    BytesAfterEnd,
}

impl FramingError {
    /// Stable vector spelling.
    pub fn as_str(self) -> (text: &'static str)
        ensures
            text@ == self.spec_text()@,
    {
        match self {
            FramingError::TransportLimitTooSmall => "transport_limit_too_small",
            FramingError::EmptyMessage => "malformed_empty_message",
            FramingError::MessageTooLarge => "message_too_large",
            FramingError::FrameTooLarge => "frame_too_large",
            FramingError::MissingStart => "missing_start",
            FramingError::ShortHeader => "short_header",
            FramingError::UnsupportedVersion => "unsupported_framing_version",
            FramingError::UnknownFlags => "unknown_flags",
            FramingError::NonzeroReserved => "nonzero_reserved",
            FramingError::UnexpectedStart => "unexpected_start",
            FramingError::InterleavedTransfer => "interleaved_transfer",
            FramingError::ChangedTotalLength => "changed_total_length",
            FramingError::GapOrOverlap => "gap_or_overlap",
            FramingError::PayloadPastTotal => "payload_past_total",
            FramingError::EarlyEnd => "early_end",
            FramingError::MissingEnd => "missing_end",
            FramingError::BytesAfterEnd => "bytes_after_end",
        }
    }

    /// The vector spelling of each category.
    pub open spec fn spec_text(self) -> &'static str {
        match self {
            FramingError::TransportLimitTooSmall => "transport_limit_too_small",
            FramingError::EmptyMessage => "malformed_empty_message",
            FramingError::MessageTooLarge => "message_too_large",
            FramingError::FrameTooLarge => "frame_too_large",
            FramingError::MissingStart => "missing_start",
            FramingError::ShortHeader => "short_header",
            FramingError::UnsupportedVersion => "unsupported_framing_version",
            FramingError::UnknownFlags => "unknown_flags",
            FramingError::NonzeroReserved => "nonzero_reserved",
            FramingError::UnexpectedStart => "unexpected_start",
            FramingError::InterleavedTransfer => "interleaved_transfer",
            FramingError::ChangedTotalLength => "changed_total_length",
            FramingError::GapOrOverlap => "gap_or_overlap",
            FramingError::PayloadPastTotal => "payload_past_total",
            FramingError::EarlyEnd => "early_end",
            FramingError::MissingEnd => "missing_end",
            FramingError::BytesAfterEnd => "bytes_after_end",
        }
    }
}

// ---------------------------------------------------------------------------
// Envelope encoding
// ---------------------------------------------------------------------------

/// Big-endian encoding of a 32-bit value.
pub open spec fn be32_bytes(value: u32) -> Seq<u8> {
    seq![
        (value / 0x100_0000) as u8,
        ((value / 0x1_0000) % 256) as u8,
        ((value / 0x100) % 256) as u8,
        (value % 256) as u8,
    ]
}

/// Big-endian 32-bit value stored at `at`.
pub open spec fn be32_at(bytes: Seq<u8>, at: int) -> int {
    bytes[at] * 0x100_0000 + bytes[at + 1] * 0x1_0000 + bytes[at + 2] * 0x100 + bytes[at + 3]
}

/// The sixteen-byte header of one fragment.
pub open spec fn header_bytes(flags: u8, transfer_id: u32, total: u32, offset: u32) -> Seq<u8> {
    seq![0u8, flags, 0u8, 0u8] + be32_bytes(transfer_id) + be32_bytes(total) + be32_bytes(offset)
}

/// Payload capacity of one fragment under a transport value limit.
pub open spec fn capacity(frame_limit: int) -> int {
    frame_limit - HEADER_BYTES
}

/// Number of fragments of a message of `len` bytes.
pub open spec fn fragment_count(len: int, cap: int) -> int {
    (len + cap - 1) / cap
}

/// Flags of fragment `i` of `n`.
pub open spec fn fragment_flags(i: int, n: int) -> u8 {
    ((if i == 0 { START } else { 0u8 }) + (if i == n - 1 { END } else { 0u8 })) as u8
}

/// End of the payload of fragment `i`.
pub open spec fn fragment_end(len: int, cap: int, i: int) -> int {
    if (i + 1) * cap < len { (i + 1) * cap } else { len }
}

/// Fragment `i` of a message.
pub open spec fn fragment_at(message: Seq<u8>, cap: int, transfer_id: u32, i: int) -> Seq<u8> {
    let n = fragment_count(message.len() as int, cap);
    header_bytes(fragment_flags(i, n), transfer_id, message.len() as u32, (i * cap) as u32)
        + message.subrange(i * cap, fragment_end(message.len() as int, cap, i))
}

/// The fragments that carry a message: consecutive payloads of `frame_limit - 16`
/// bytes (the last possibly shorter), `START` on the first and `END` on the last.
pub open spec fn spec_fragment(message: Seq<u8>, frame_limit: int, transfer_id: u32) -> Seq<
    Seq<u8>,
> {
    let cap = capacity(frame_limit);
    Seq::new(
        fragment_count(message.len() as int, cap) as nat,
        |i: int| fragment_at(message, cap, transfer_id, i),
    )
}

/// What `fragment` returns for its arguments.
pub open spec fn fragment_result(
    message: Seq<u8>,
    frame_limit: int,
    transfer_id: u32,
    max_message_bytes: int,
) -> Result<Seq<Seq<u8>>, FramingError> {
    if frame_limit < MIN_FRAME_LIMIT {
        Err(FramingError::TransportLimitTooSmall)
    } else if message.len() == 0 {
        Err(FramingError::EmptyMessage)
    } else if message.len() > max_message_bytes || message.len() > u32::MAX {
        Err(FramingError::MessageTooLarge)
    } else {
        Ok(spec_fragment(message, frame_limit, transfer_id))
    }
}

/// The views of a sequence of byte vectors.
pub open spec fn frame_views(frames: Seq<Vec<u8>>) -> Seq<Seq<u8>> {
    frames.map_values(|frame: Vec<u8>| frame@)
}

proof fn lemma_be32_roundtrip(value: u32)
    ensures
        be32_at(be32_bytes(value), 0) == value,
        be32_at(header_bytes(0, 0, 0, value), 12) == value,
{
    let b0 = value / 0x100_0000;
    let b1 = (value / 0x1_0000) % 256;
    let b2 = (value / 0x100) % 256;
    let b3 = value % 256;
    assert(b0 * 0x100_0000 + b1 * 0x1_0000 + b2 * 0x100 + b3 == value) by (nonlinear_arith)
        requires
            b0 == value / 0x100_0000,
            b1 == (value / 0x1_0000) % 256,
            b2 == (value / 0x100) % 256,
            b3 == value % 256,
    ;
    assert(b0 < 256);
    let s = be32_bytes(value);
    assert(s[0] == b0 && s[1] == b1 && s[2] == b2 && s[3] == b3);
    let h = header_bytes(0, 0, 0, value);
    assert(h[12] == s[0] && h[13] == s[1] && h[14] == s[2] && h[15] == s[3]);
}

proof fn lemma_header_fields(flags: u8, transfer_id: u32, total: u32, offset: u32)
    ensures
        ({
            let h = header_bytes(flags, transfer_id, total, offset);
            &&& h.len() == 16
            &&& h[0] == 0
            &&& h[1] == flags
            &&& h[2] == 0
            &&& h[3] == 0
            &&& be32_at(h, 4) == transfer_id
            &&& be32_at(h, 8) == total
            &&& be32_at(h, 12) == offset
        }),
{
    let h = header_bytes(flags, transfer_id, total, offset);
    lemma_be32_roundtrip(transfer_id);
    lemma_be32_roundtrip(total);
    lemma_be32_roundtrip(offset);
    let t = be32_bytes(transfer_id);
    let l = be32_bytes(total);
    let o = be32_bytes(offset);
    assert(h[4] == t[0] && h[5] == t[1] && h[6] == t[2] && h[7] == t[3]);
    assert(h[8] == l[0] && h[9] == l[1] && h[10] == l[2] && h[11] == l[3]);
    assert(h[12] == o[0] && h[13] == o[1] && h[14] == o[2] && h[15] == o[3]);
}

fn push_be32(bytes: &mut Vec<u8>, value: u32)
    ensures
        final(bytes)@ == old(bytes)@ + be32_bytes(value),
{
    bytes.push((value / 0x100_0000) as u8);
    bytes.push(((value / 0x1_0000) % 256) as u8);
    bytes.push(((value / 0x100) % 256) as u8);
    bytes.push((value % 256) as u8);
    assert(bytes@ =~= old(bytes)@ + be32_bytes(value));
}

proof fn lemma_fragment_count(len: int, cap: int, k: int)
    requires
        len > 0,
        cap > 0,
        k >= 0,
    ensures
        k < fragment_count(len, cap) <==> k * cap < len,
        fragment_count(len, cap) >= 1,
{
    let n = fragment_count(len, cap);
    assert(k < n <==> k * cap < len) by (nonlinear_arith)
        requires
            n == (len + cap - 1) / cap,
            len > 0,
            cap > 0,
            k >= 0,
    ;
    assert(n >= 1) by (nonlinear_arith)
        requires
            n == (len + cap - 1) / cap,
            len > 0,
            cap > 0,
    ;
}

/// Fragment one nonempty logical message using a runtime ATT value limit.
pub fn fragment(message: &[u8], frame_limit: usize, transfer_id: u32, max_message_bytes: usize) -> (result: Result<Vec<Vec<u8>>, FramingError>)
    ensures
        match result {
            Ok(frames) => fragment_result(message@, frame_limit as int, transfer_id, max_message_bytes as int)
                == Ok::<Seq<Seq<u8>>, FramingError>(frame_views(frames@)),
            Err(error) => fragment_result(message@, frame_limit as int, transfer_id, max_message_bytes as int)
                == Err::<Seq<Seq<u8>>, FramingError>(error),
        },
{
    if frame_limit < MIN_FRAME_LIMIT {
        return Err(FramingError::TransportLimitTooSmall);
    }
    if message.len() == 0 {
        return Err(FramingError::EmptyMessage);
    }
    if message.len() > max_message_bytes || message.len() > 0xffff_ffff {
        return Err(FramingError::MessageTooLarge);
    }
    let len = message.len();
    let cap = frame_limit - HEADER_BYTES;
    let total = len as u32;
    let ghost n = fragment_count(len as int, cap as int);
    let mut frames: Vec<Vec<u8>> = Vec::new();
    let mut offset: usize = 0;
    let ghost mut k: int = 0;
    proof {
        lemma_fragment_count(len as int, cap as int, 0);
    }
    while offset < len
        invariant
            len == message@.len(),
            0 < len <= u32::MAX,
            cap == capacity(frame_limit as int),
            cap >= 4,
            total == len,
            n == fragment_count(len as int, cap as int),
            0 <= k <= n,
            offset == (if k * cap < len { k * cap } else { len as int }),
            offset < len <==> k < n,
            frames@.len() == k,
            forall|j: int|
                0 <= j < k ==> #[trigger] frames@[j]@ == fragment_at(message@, cap as int, transfer_id, j),
        decreases len - offset,
    {
        proof {
            lemma_fragment_count(len as int, cap as int, k);
            lemma_fragment_count(len as int, cap as int, k + 1);
        }
        let end: usize = if len - offset < cap { len } else { offset + cap };
        assert((k + 1) * cap == k * cap + cap) by (nonlinear_arith);
        assert(end == fragment_end(len as int, cap as int, k));
        let mut flags: u8 = if offset == 0 { START } else { 0 };
        if end == len {
            flags = flags + END;
        }
        assert(offset == 0 <==> k == 0) by (nonlinear_arith)
            requires offset == k * cap, cap > 0, k >= 0;
        assert(end == len <==> k == n - 1);
        assert(flags == fragment_flags(k, n as int));
        let mut frame: Vec<u8> = Vec::new();
        frame.push(0);
        frame.push(flags);
        frame.push(0);
        frame.push(0);
        push_be32(&mut frame, transfer_id);
        push_be32(&mut frame, total);
        push_be32(&mut frame, offset as u32);
        assert(frame@ =~= header_bytes(flags, transfer_id, total, offset as u32));
        let ghost header = frame@;
        let mut index: usize = offset;
        while index < end
            invariant
                offset <= index <= end <= len,
                len == message@.len(),
                frame@ == header + message@.subrange(offset as int, index as int),
            decreases end - index,
        {
            frame.push(message[index]);
            index = index + 1;
            assert(frame@ =~= header + message@.subrange(offset as int, index as int));
        }
        assert(frame@ == fragment_at(message@, cap as int, transfer_id, k));
        frames.push(frame);
        offset = end;
        proof {
            k = k + 1;
        }
    }
    assert(k == n);
    assert(frame_views(frames@) =~= spec_fragment(message@, frame_limit as int, transfer_id));
    Ok(frames)
}

// ---------------------------------------------------------------------------
// Reassembly
// ---------------------------------------------------------------------------

/// Whether a flags byte carries `START`.
pub open spec fn has_start(flags: u8) -> bool {
    flags % 2 == 1
}

/// Whether a flags byte carries `END`.
pub open spec fn has_end(flags: u8) -> bool {
    (flags / 2) % 2 == 1
}

/// Progress after accepting a prefix of the fragments: the next expected offset,
/// whether `END` was seen, and the payload bytes gathered so far.
pub type Progress = (int, bool, Seq<u8>);

/// Check fragment `i` against the progress before it and the first fragment's
/// declared identity and total, in the order the envelope rules are applied.
pub open spec fn accept_fragment(
    frames: Seq<Seq<u8>>,
    i: int,
    progress: Progress,
    frame_limit: int,
    max_message_bytes: int,
) -> Result<Progress, FramingError> {
    let frame = frames[i];
    let (expected, ended, data) = progress;
    if ended {
        Err(FramingError::BytesAfterEnd)
    } else if frame.len() > frame_limit {
        Err(FramingError::FrameTooLarge)
    } else if frame.len() < HEADER_BYTES {
        Err(FramingError::ShortHeader)
    } else if frame[0] != 0 {
        Err(FramingError::UnsupportedVersion)
    } else if frame[1] > 3 {
        Err(FramingError::UnknownFlags)
    } else if frame[2] != 0 || frame[3] != 0 {
        Err(FramingError::NonzeroReserved)
    } else if i == 0 && !has_start(frame[1]) {
        Err(FramingError::MissingStart)
    } else if i > 0 && has_start(frame[1]) {
        Err(FramingError::UnexpectedStart)
    } else if i > 0 && be32_at(frame, 4) != be32_at(frames[0], 4) {
        Err(FramingError::InterleavedTransfer)
    } else if i == 0 && be32_at(frame, 8) > max_message_bytes {
        Err(FramingError::MessageTooLarge)
    } else if i == 0 && be32_at(frame, 8) == 0 {
        Err(FramingError::EmptyMessage)
    } else if be32_at(frame, 8) != be32_at(frames[0], 8) {
        Err(FramingError::ChangedTotalLength)
    } else if be32_at(frame, 12) != expected {
        Err(FramingError::GapOrOverlap)
    } else if expected + (frame.len() - HEADER_BYTES) > be32_at(frame, 8) {
        Err(FramingError::PayloadPastTotal)
    } else {
        let next = expected + (frame.len() - HEADER_BYTES);
        let gathered = data + frame.subrange(HEADER_BYTES as int, frame.len() as int);
        if has_end(frame[1]) {
            if next != be32_at(frame, 8) {
                Err(FramingError::EarlyEnd)
            } else {
                Ok((next, true, gathered))
            }
        } else {
            Ok((next, false, gathered))
        }
    }
}

/// Progress after the first `n` fragments, or the first envelope violation.
pub open spec fn accept_prefix(
    frames: Seq<Seq<u8>>,
    n: nat,
    frame_limit: int,
    max_message_bytes: int,
) -> Result<Progress, FramingError>
    decreases n,
{
    if n == 0 {
        Ok((0, false, Seq::empty()))
    } else {
        match accept_prefix(frames, (n - 1) as nat, frame_limit, max_message_bytes) {
            Err(error) => Err(error),
            Ok(progress) => accept_fragment(
                frames,
                n - 1,
                progress,
                frame_limit,
                max_message_bytes,
            ),
        }
    }
}

/// What `reassemble` returns: the gathered payload of one contiguous, ordered,
/// completed transfer, or the first envelope violation.
pub open spec fn reassemble_result(
    frames: Seq<Seq<u8>>,
    frame_limit: int,
    max_message_bytes: int,
) -> Result<Seq<u8>, FramingError> {
    if frames.len() == 0 {
        Err(FramingError::MissingStart)
    } else {
        match accept_prefix(frames, frames.len(), frame_limit, max_message_bytes) {
            Err(error) => Err(error),
            Ok((_, ended, data)) => if ended {
                Ok(data)
            } else {
                Err(FramingError::MissingEnd)
            },
        }
    }
}

fn read_be32(frame: &Vec<u8>, at: usize) -> (value: u32)
    requires
        at + 4 <= frame.len(),
    ensures
        value == be32_at(frame@, at as int),
{
    let b0 = frame[at] as u64;
    let b1 = frame[at + 1] as u64;
    let b2 = frame[at + 2] as u64;
    let b3 = frame[at + 3] as u64;
    assert(b0 <= 255 && b1 <= 255 && b2 <= 255 && b3 <= 255);
    let value: u64 = b0 * 0x100_0000 + b1 * 0x1_0000 + b2 * 0x100 + b3;
    assert(value <= 0xffff_ffff);
    value as u32
}

proof fn lemma_flag_bits(flags: u8)
    ensures
        (flags & 0xfc != 0) == (flags > 3),
        (flags & START != 0) == has_start(flags),
        (flags & END != 0) == has_end(flags),
{
    assert((flags & 0xfc != 0) == (flags > 3)) by (bit_vector);
    assert((flags & 1 != 0) == (flags % 2 == 1)) by (bit_vector);
    assert((flags & 2 != 0) == ((flags / 2) % 2 == 1)) by (bit_vector);
}

proof fn lemma_prefix_error(
    frames: Seq<Seq<u8>>,
    n: nat,
    m: nat,
    frame_limit: int,
    max_message_bytes: int,
)
    requires
        n <= m,
        accept_prefix(frames, n, frame_limit, max_message_bytes) is Err,
    ensures
        accept_prefix(frames, m, frame_limit, max_message_bytes) == accept_prefix(
            frames,
            n,
            frame_limit,
            max_message_bytes,
        ),
    decreases m - n,
{
    if n < m {
        lemma_prefix_error(frames, n, (m - 1) as nat, frame_limit, max_message_bytes);
    }
}

/// Accept fragment `index` given the progress so far; on success the payload has
/// been appended to `data`.
fn accept_one(
    frames: &[Vec<u8>],
    index: usize,
    expected_offset: usize,
    transfer_id: u32,
    total_length: usize,
    data: &mut Vec<u8>,
    frame_limit: usize,
    max_message_bytes: usize,
) -> (result: Result<(usize, bool), FramingError>)
    requires
        index < frames@.len(),
        index > 0 ==> transfer_id == be32_at(frames@[0]@, 4),
        index > 0 ==> total_length == be32_at(frames@[0]@, 8),
        index > 0 ==> expected_offset <= total_length,
        index == 0 ==> expected_offset == 0,
    ensures
        match result {
            Ok((next, ended)) => {
                &&& accept_fragment(frame_views(frames@), index as int, (expected_offset as int, false, old(data)@), frame_limit as int, max_message_bytes as int)
                    == Ok::<Progress, FramingError>((next as int, ended, final(data)@))
                &&& next <= be32_at(frames@[0]@, 8)
            },
            Err(error) => accept_fragment(frame_views(frames@), index as int, (expected_offset as int, false, old(data)@), frame_limit as int, max_message_bytes as int)
                == Err::<Progress, FramingError>(error),
        },
{
    let ghost views = frame_views(frames@);
    let frame = &frames[index];
    assert(views[index as int] == frame@);
    assert(views[0] == frames@[0]@);
    if frame.len() > frame_limit {
        return Err(FramingError::FrameTooLarge);
    }
    if frame.len() < HEADER_BYTES {
        return Err(FramingError::ShortHeader);
    }
    let version = frame[0];
    let flags = frame[1];
    let current_transfer = read_be32(frame, 4);
    let current_total = read_be32(frame, 8) as usize;
    let offset = read_be32(frame, 12) as usize;
    proof {
        lemma_flag_bits(flags);
    }
    if version != 0 {
        return Err(FramingError::UnsupportedVersion);
    }
    if flags & 0xfc != 0 {
        return Err(FramingError::UnknownFlags);
    }
    if frame[2] != 0 || frame[3] != 0 {
        return Err(FramingError::NonzeroReserved);
    }
    if index == 0 && flags & START == 0 {
        return Err(FramingError::MissingStart);
    }
    if index > 0 && flags & START != 0 {
        return Err(FramingError::UnexpectedStart);
    }
    let mut total: usize = total_length;
    if index > 0 {
        if current_transfer != transfer_id {
            return Err(FramingError::InterleavedTransfer);
        }
    } else {
        if current_total > max_message_bytes {
            return Err(FramingError::MessageTooLarge);
        }
        if current_total == 0 {
            return Err(FramingError::EmptyMessage);
        }
        total = current_total;
    }
    if current_total != total {
        return Err(FramingError::ChangedTotalLength);
    }
    if offset != expected_offset {
        return Err(FramingError::GapOrOverlap);
    }
    let payload_len = frame.len() - HEADER_BYTES;
    if payload_len > current_total - expected_offset {
        return Err(FramingError::PayloadPastTotal);
    }
    let mut at: usize = HEADER_BYTES;
    let ghost before = data@;
    while at < frame.len()
        invariant
            HEADER_BYTES <= at <= frame@.len(),
            data@ == before + frame@.subrange(HEADER_BYTES as int, at as int),
        decreases frame@.len() - at,
    {
        data.push(frame[at]);
        at = at + 1;
        assert(data@ =~= before + frame@.subrange(HEADER_BYTES as int, at as int));
    }
    let next = expected_offset + payload_len;
    if flags & END != 0 {
        if next != current_total {
            return Err(FramingError::EarlyEnd);
        }
        return Ok((next, true));
    }
    Ok((next, false))
}

/// Reassemble one contiguous, ordered transfer.
pub fn reassemble(frames: &[Vec<u8>], frame_limit: usize, max_message_bytes: usize) -> (result: Result<Vec<u8>, FramingError>)
    ensures
        match result {
            Ok(data) => reassemble_result(frame_views(frames@), frame_limit as int, max_message_bytes as int)
                == Ok::<Seq<u8>, FramingError>(data@),
            Err(error) => reassemble_result(frame_views(frames@), frame_limit as int, max_message_bytes as int)
                == Err::<Seq<u8>, FramingError>(error),
        },
{
    let ghost views = frame_views(frames@);
    if frames.len() == 0 {
        return Err(FramingError::MissingStart);
    }
    let mut expected_offset: usize = 0;
    let mut transfer_id: u32 = 0;
    let mut total_length: usize = 0;
    let mut data: Vec<u8> = Vec::new();
    let mut ended = false;
    let mut index: usize = 0;
    while index < frames.len()
        invariant
            views == frame_views(frames@),
            views.len() == frames@.len(),
            0 <= index <= frames@.len(),
            frames@.len() > 0,
            accept_prefix(views, index as nat, frame_limit as int, max_message_bytes as int)
                == Ok::<Progress, FramingError>((expected_offset as int, ended, data@)),
            index > 0 ==> transfer_id == be32_at(frames@[0]@, 4),
            index > 0 ==> total_length == be32_at(frames@[0]@, 8),
            index > 0 ==> expected_offset <= total_length,
            index == 0 ==> expected_offset == 0,
        decreases frames@.len() - index,
    {
        assert(views[0] == frames@[0]@);
        if ended {
            proof {
                lemma_prefix_error(views, (index + 1) as nat, views.len(), frame_limit as int, max_message_bytes as int);
            }
            return Err(FramingError::BytesAfterEnd);
        }
        match accept_one(frames, index, expected_offset, transfer_id, total_length, &mut data, frame_limit, max_message_bytes) {
            Err(error) => {
                proof {
                    lemma_prefix_error(views, (index + 1) as nat, views.len(), frame_limit as int, max_message_bytes as int);
                }
                return Err(error);
            }
            Ok((next, now_ended)) => {
                if index == 0 {
                    transfer_id = read_be32(&frames[0], 4);
                    total_length = read_be32(&frames[0], 8) as usize;
                }
                expected_offset = next;
                ended = now_ended;
            }
        }
        index = index + 1;
    }
    if !ended {
        return Err(FramingError::MissingEnd);
    }
    Ok(data)
}

// ---------------------------------------------------------------------------
// Laws
// ---------------------------------------------------------------------------

proof fn lemma_fragment_shape(message: Seq<u8>, frame_limit: int, transfer_id: u32, k: int)
    requires
        frame_limit >= MIN_FRAME_LIMIT,
        0 < message.len() <= u32::MAX,
        0 <= k < fragment_count(message.len() as int, capacity(frame_limit)),
    ensures
        ({
            let cap = capacity(frame_limit);
            let len = message.len() as int;
            let n = fragment_count(len, cap);
            let frame = fragment_at(message, cap, transfer_id, k);
            let end = fragment_end(len, cap, k);
            &&& k * cap < len
            &&& k * cap < end <= len
            &&& end - k * cap <= cap
            &&& (end == len <==> k == n - 1)
            &&& frame.len() == HEADER_BYTES + (end - k * cap)
            &&& frame.len() <= frame_limit
            &&& frame[0] == 0
            &&& frame[1] == fragment_flags(k, n)
            &&& frame[2] == 0
            &&& frame[3] == 0
            &&& be32_at(frame, 4) == transfer_id
            &&& be32_at(frame, 8) == len
            &&& be32_at(frame, 12) == k * cap
            &&& frame.subrange(HEADER_BYTES as int, frame.len() as int) == message.subrange(k * cap, end)
        }),
{
    let cap = capacity(frame_limit);
    let len = message.len() as int;
    let n = fragment_count(len, cap);
    lemma_fragment_count(len, cap, k);
    lemma_fragment_count(len, cap, k + 1);
    assert((k + 1) * cap == k * cap + cap) by (nonlinear_arith);
    let end = fragment_end(len, cap, k);
    let flags = fragment_flags(k, n);
    let header = header_bytes(flags, transfer_id, len as u32, (k * cap) as u32);
    lemma_header_fields(flags, transfer_id, len as u32, (k * cap) as u32);
    let frame = fragment_at(message, cap, transfer_id, k);
    assert(frame == header + message.subrange(k * cap, end));
    assert(frame[0] == header[0] && frame[1] == header[1] && frame[2] == header[2] && frame[3] == header[3]);
    assert(be32_at(frame, 4) == be32_at(header, 4));
    assert(be32_at(frame, 8) == be32_at(header, 8));
    assert(be32_at(frame, 12) == be32_at(header, 12));
    assert(frame.subrange(HEADER_BYTES as int, frame.len() as int) =~= message.subrange(k * cap, end));
}

proof fn lemma_accept_fragments(message: Seq<u8>, frame_limit: int, transfer_id: u32, max_message_bytes: int, k: nat)
    requires
        frame_limit >= MIN_FRAME_LIMIT,
        0 < message.len() <= u32::MAX,
        message.len() <= max_message_bytes,
        k <= fragment_count(message.len() as int, capacity(frame_limit)),
    ensures
        ({
            let cap = capacity(frame_limit);
            let len = message.len() as int;
            let n = fragment_count(len, cap);
            let done = if k * cap < len { k * cap } else { len };
            accept_prefix(spec_fragment(message, frame_limit, transfer_id), k, frame_limit, max_message_bytes)
                == Ok::<Progress, FramingError>((done, k == n, message.subrange(0, done)))
        }),
    decreases k,
{
    let cap = capacity(frame_limit);
    let len = message.len() as int;
    let n = fragment_count(len, cap);
    let frames = spec_fragment(message, frame_limit, transfer_id);
    lemma_fragment_count(len, cap, 0);
    if k == 0 {
        assert(message.subrange(0, 0) =~= Seq::<u8>::empty());
    } else {
        let i = k - 1;
        lemma_accept_fragments(message, frame_limit, transfer_id, max_message_bytes, i as nat);
        lemma_fragment_shape(message, frame_limit, transfer_id, i);
        lemma_fragment_shape(message, frame_limit, transfer_id, 0);
        lemma_fragment_count(len, cap, k as int);
        assert(k * cap == i * cap + cap) by (nonlinear_arith)
            requires i == k - 1;
        let frame = frames[i];
        assert(frame == fragment_at(message, cap, transfer_id, i));
        assert(frames[0] == fragment_at(message, cap, transfer_id, 0));
        let flags = fragment_flags(i, n);
        assert(has_start(flags) == (i == 0));
        assert(has_end(flags) == (i == n - 1));
        let end = fragment_end(len, cap, i);
        assert(message.subrange(0, i * cap) + message.subrange(i * cap, end) =~= message.subrange(0, end));
        assert(end == (if k * cap < len { k * cap } else { len }));
    }
}

/// Fragmenting a message and reassembling its fragments under the same transport
/// limits gives back exactly the message.
pub proof fn lemma_fragment_reassemble_roundtrip(
    message: Seq<u8>,
    frame_limit: int,
    transfer_id: u32,
    max_message_bytes: int,
)
    requires
        fragment_result(message, frame_limit, transfer_id, max_message_bytes) is Ok,
    ensures
        reassemble_result(
            fragment_result(message, frame_limit, transfer_id, max_message_bytes)->Ok_0,
            frame_limit,
            max_message_bytes,
        ) == Ok::<Seq<u8>, FramingError>(message),
{
    let cap = capacity(frame_limit);
    let len = message.len() as int;
    let n = fragment_count(len, cap);
    lemma_fragment_count(len, cap, 0);
    lemma_fragment_count(len, cap, n);
    lemma_accept_fragments(message, frame_limit, transfer_id, max_message_bytes, n as nat);
    assert(message.subrange(0, len) =~= message);
}

/// No fragment produced under a transport limit is longer than that limit.
pub proof fn lemma_fragments_fit_limit(
    message: Seq<u8>,
    frame_limit: int,
    transfer_id: u32,
    max_message_bytes: int,
)
    requires
        fragment_result(message, frame_limit, transfer_id, max_message_bytes) is Ok,
    ensures
        ({
            let frames = fragment_result(message, frame_limit, transfer_id, max_message_bytes)->Ok_0;
            &&& frames.len() >= 1
            &&& forall|i: int| 0 <= i < frames.len() ==> #[trigger] frames[i].len() <= frame_limit
        }),
{
    let cap = capacity(frame_limit);
    let len = message.len() as int;
    lemma_fragment_count(len, cap, 0);
    let frames = spec_fragment(message, frame_limit, transfer_id);
    assert forall|i: int| 0 <= i < frames.len() implies #[trigger] frames[i].len() <= frame_limit by {
        lemma_fragment_shape(message, frame_limit, transfer_id, i);
    }
}

/// Each fragment is a sixteen-byte header and a slice of the message: version
/// byte 0, flags with START (1) on the first fragment and END (2) on the last,
/// two zero bytes, then big-endian transfer id, total message length, and the
/// payload's offset in the message; payloads are consecutive slices of
/// `frame_limit - 16` bytes, the last possibly shorter.
pub proof fn lemma_fragment_layout(
    message: Seq<u8>,
    frame_limit: int,
    transfer_id: u32,
    max_message_bytes: int,
)
    requires
        fragment_result(message, frame_limit, transfer_id, max_message_bytes) is Ok,
    ensures
        ({
            let frames = fragment_result(message, frame_limit, transfer_id, max_message_bytes)->Ok_0;
            let cap = frame_limit - 16;
            let n = frames.len();
            forall|i: int|
                0 <= i < n ==> {
                    let frame = #[trigger] frames[i];
                    let end = if i == n - 1 { message.len() as int } else { (i + 1) * cap };
                    &&& frame[0] == 0 && frame[2] == 0 && frame[3] == 0
                    &&& frame[1] == (if i == 0 { 1int } else { 0int }) + (if i == n - 1 { 2int } else { 0int })
                    &&& frame[4] * 0x100_0000 + frame[5] * 0x1_0000 + frame[6] * 0x100 + frame[7]
                        == transfer_id
                    &&& frame[8] * 0x100_0000 + frame[9] * 0x1_0000 + frame[10] * 0x100 + frame[11]
                        == message.len()
                    &&& frame[12] * 0x100_0000 + frame[13] * 0x1_0000 + frame[14] * 0x100 + frame[15]
                        == i * cap
                    &&& i * cap < end <= message.len()
                    &&& frame.subrange(16, frame.len() as int) == message.subrange(i * cap, end)
                }
        }),
{
    let cap = capacity(frame_limit);
    let len = message.len() as int;
    let frames = spec_fragment(message, frame_limit, transfer_id);
    let n = frames.len() as int;
    assert forall|i: int| 0 <= i < n implies {
        let frame = #[trigger] frames[i];
        let end = if i == n - 1 { message.len() as int } else { (i + 1) * cap };
        &&& frame[0] == 0 && frame[2] == 0 && frame[3] == 0
        &&& frame[1] == (if i == 0 { 1int } else { 0int }) + (if i == n - 1 { 2int } else { 0int })
        &&& frame[4] * 0x100_0000 + frame[5] * 0x1_0000 + frame[6] * 0x100 + frame[7]
            == transfer_id
        &&& frame[8] * 0x100_0000 + frame[9] * 0x1_0000 + frame[10] * 0x100 + frame[11]
            == message.len()
        &&& frame[12] * 0x100_0000 + frame[13] * 0x1_0000 + frame[14] * 0x100 + frame[15]
            == i * cap
        &&& i * cap < end <= message.len()
        &&& frame.subrange(16, frame.len() as int) == message.subrange(i * cap, end)
    } by {
        lemma_fragment_shape(message, frame_limit, transfer_id, i);
        if i < n - 1 {
            lemma_fragment_count(len, cap, i + 1);
            assert((i + 1) * cap == i * cap + cap) by (nonlinear_arith);
        }
    }
}

} // verus!
