//! The decoder: walks a file image chunk by chunk and event by event.

use vstd::prelude::*;
use crate::formats::{
    get_be16, get_be32, header_tag, read_be16, read_be32, track_tag, vlq_decode, ReadError, Tag,
    MAX_VLQ, VLQ,
};
use crate::messages::{
    event_of, param_count, views, Message, MessageView, MetaEvent, MidiEventBuilder, SysExEvent,
};

verus! {

/// What the header chunk holds.
#[derive(Clone, Copy, Debug, PartialEq, Eq, Structural)]
pub struct Header {
    pub format: u16,
    pub track_count: u16,
    pub time_base: u16,
}

/// One decoded event: the message, the index behind its last byte, and
/// the status byte that the next event of the track may lean on.
pub struct EventRead {
    pub message: MessageView,
    pub next: int,
    pub status: Option<u8>,
}

/// What decoding a file image yields: the header, where it was reached,
/// the messages in file order, and the error that ended decoding, if any.
pub struct ReadView {
    pub header: Option<Header>,
    pub messages: Seq<MessageView>,
    pub error: Option<ReadError>,
}

/// A length-prefixed payload at `pos`: its bytes and the index behind it.
pub open spec fn read_payload(s: Seq<u8>, pos: int) -> Result<(Seq<u8>, int), ReadError> {
    match vlq_decode(s, pos) {
        Err(e) => Err(e),
        Ok((len, n)) => if pos + n + len > s.len() {
            Err(ReadError::TruncatedInput)
        } else {
            Ok((s.subrange(pos + n, pos + n + len), pos + n + len))
        },
    }
}

/// A meta event whose type byte stands at `pos`.
pub open spec fn read_meta(s: Seq<u8>, pos: int, delta_time: nat) -> Result<EventRead, ReadError> {
    if pos >= s.len() {
        Err(ReadError::TruncatedInput)
    } else {
        match read_payload(s, pos + 1) {
            Err(e) => Err(e),
            Ok((data, next)) => Ok(
                EventRead {
                    message: MessageView::MetaEvent {
                        delta_time,
                        event: MetaEvent::from_code(s[pos]),
                        data,
                    },
                    next,
                    status: None,
                },
            ),
        }
    }
}

/// A system exclusive event whose length stands at `pos`, behind the
/// status byte `status`. The payload is handed on as it stands.
pub open spec fn read_sysex(s: Seq<u8>, pos: int, delta_time: nat, status: u8) -> Result<
    EventRead,
    ReadError,
> {
    match read_payload(s, pos) {
        Err(e) => Err(e),
        Ok((data, next)) => Ok(
            EventRead {
                message: MessageView::SysExEvent {
                    delta_time,
                    event: SysExEvent::from_status(status),
                    data,
                },
                next,
                status: None,
            },
        ),
    }
}

/// A channel voice event under the status byte `status`, whose parameter
/// bytes start at `pos`. It takes at least the bytes up to `least`.
pub open spec fn read_voice(s: Seq<u8>, pos: int, least: int, delta_time: nat, status: u8) -> Result<
    EventRead,
    ReadError,
> {
    let count = param_count(status);
    if pos + count > s.len() {
        Err(ReadError::TruncatedInput)
    } else {
        Ok(
            EventRead {
                message: MessageView::MidiEvent {
                    delta_time,
                    event: event_of(status, s.subrange(pos, pos + count)),
                },
                next: if pos + count < least {
                    least
                } else {
                    pos + count
                },
                status: Some(status),
            },
        )
    }
}

/// The event at `pos`: a delta time, then a meta event behind 0xFF, a
/// system exclusive event behind 0xF0 or 0xF7, a channel voice event
/// behind any other byte with its top bit set, or, behind a byte with its
/// top bit clear, a channel voice event under the status byte `running`
/// with that byte as its first parameter.
#[verifier::opaque]
pub open spec fn read_event(s: Seq<u8>, pos: int, running: Option<u8>) -> Result<
    EventRead,
    ReadError,
> {
    match vlq_decode(s, pos) {
        Err(e) => Err(e),
        Ok((delta_time, n)) => {
            let p = pos + n;
            if p >= s.len() {
                Err(ReadError::TruncatedInput)
            } else if s[p] == 0xFF {
                read_meta(s, p + 1, delta_time)
            } else if s[p] == 0xF0 || s[p] == 0xF7 {
                read_sysex(s, p + 1, delta_time, s[p])
            } else if s[p] >= 0x80 {
                read_voice(s, p + 1, p + 1, delta_time, s[p])
            } else {
                match running {
                    None => Err(ReadError::MissingStatus),
                    Some(status) => read_voice(s, p, p + 1, delta_time, status),
                }
            }
        },
    }
}

/// The events from `pos` up to `end`, the end that the track chunk
/// declares, under the running status `running`: the messages decoded
/// before the first error, and that error. An event that runs over `end`
/// is a length mismatch and is not handed out. Every event takes at
/// least one byte, so the walk always moves on.
pub open spec fn read_events(s: Seq<u8>, pos: int, end: int, running: Option<u8>) -> (
    Seq<MessageView>,
    Option<ReadError>,
)
    decreases end - pos,
{
    if pos >= end {
        (Seq::<MessageView>::empty(), None)
    } else {
        match read_event(s, pos, running) {
            Err(e) => (Seq::<MessageView>::empty(), Some(e)),
            Ok(r) => if r.next > end {
                (Seq::<MessageView>::empty(), Some(ReadError::LengthMismatch))
            } else if r.next <= pos {
                (Seq::<MessageView>::empty(), None)
            } else {
                let rest = read_events(s, r.next, end, r.status);
                (seq![r.message] + rest.0, rest.1)
            },
        }
    }
}

/// What reading one track chunk yields.
pub struct TrackRead {
    pub messages: Seq<MessageView>,
    pub error: Option<ReadError>,
    pub next: int,
}

/// The track chunk at `pos`: the tag, the length of the events in four
/// bytes, and the events. Every track but the first of the file is
/// announced by a track boundary, which stands before its events.
#[verifier::opaque]
pub open spec fn read_track(s: Seq<u8>, pos: int, first: bool) -> TrackRead {
    let none = Seq::<MessageView>::empty();
    let lead = if first {
        none
    } else {
        seq![MessageView::TrackChange]
    };
    if pos + 4 > s.len() {
        TrackRead { messages: none, error: Some(ReadError::TruncatedInput), next: pos }
    } else if s.subrange(pos, pos + 4) != track_tag() {
        TrackRead { messages: none, error: Some(ReadError::UnexpectedTag), next: pos }
    } else if pos + 8 > s.len() {
        TrackRead { messages: lead, error: Some(ReadError::TruncatedInput), next: pos }
    } else if pos + 8 + read_be32(s, pos + 4) > s.len() {
        TrackRead { messages: lead, error: Some(ReadError::TruncatedInput), next: pos }
    } else {
        let end = pos + 8 + read_be32(s, pos + 4);
        let events = read_events(s, pos + 8, end, None);
        TrackRead { messages: lead + events.0, error: events.1, next: end }
    }
}

/// The track chunks from `pos` on, as many as `remaining`: the messages
/// decoded before the first error, and that error.
pub open spec fn read_tracks(s: Seq<u8>, pos: int, remaining: nat, first: bool) -> (
    Seq<MessageView>,
    Option<ReadError>,
)
    decreases remaining,
{
    if remaining == 0 {
        (Seq::<MessageView>::empty(), None)
    } else {
        let track = read_track(s, pos, first);
        if track.error.is_some() {
            (track.messages, track.error)
        } else {
            let rest = read_tracks(s, track.next, (remaining - 1) as nat, false);
            (track.messages + rest.0, rest.1)
        }
    }
}

/// What decoding the file image `s` yields.
pub open spec fn read_file(s: Seq<u8>) -> ReadView {
    let none = Seq::<MessageView>::empty();
    if s.len() < 4 {
        ReadView { header: None, messages: none, error: Some(ReadError::TruncatedInput) }
    } else if s.subrange(0, 4) != header_tag() {
        ReadView { header: None, messages: none, error: Some(ReadError::UnexpectedTag) }
    } else if s.len() < 8 {
        ReadView { header: None, messages: none, error: Some(ReadError::TruncatedInput) }
    } else if read_be32(s, 4) != 6 {
        ReadView { header: None, messages: none, error: Some(ReadError::InvalidHeaderLength) }
    } else if s.len() < 14 {
        ReadView { header: None, messages: none, error: Some(ReadError::TruncatedInput) }
    } else {
        let header = Header {
            format: read_be16(s, 8) as u16,
            track_count: read_be16(s, 10) as u16,
            time_base: read_be16(s, 12) as u16,
        };
        let tracks = read_tracks(s, 14, header.track_count as nat, true);
        ReadView { header: Some(header), messages: tracks.0, error: tracks.1 }
    }
}

/// Copies the bytes from `from` up to `to`.
pub fn copy_range(bytes: &[u8], from: usize, to: usize) -> (r: Vec<u8>)
    requires
        from <= to <= bytes@.len(),
    ensures
        r@ == bytes@.subrange(from as int, to as int),
{
    let mut out: Vec<u8> = Vec::new();
    let mut i: usize = from;
    while i < to
        invariant
            from <= i <= to <= bytes@.len(),
            out@ == bytes@.subrange(from as int, i as int),
        decreases to - i,
    {
        out.push(bytes[i]);
        i = i + 1;
        assert(out@ =~= bytes@.subrange(from as int, i as int));
    }
    out
}

/// Decodes the length-prefixed payload at `pos`.
pub fn decode_payload(bytes: &[u8], pos: usize) -> (r: Result<(Vec<u8>, usize), ReadError>)
    ensures
        match r {
            Ok((data, next)) => read_payload(bytes@, pos as int) == Ok::<
                (Seq<u8>, int),
                ReadError,
            >((data@, next as int)) && pos < next <= bytes@.len() && data@.len() <= MAX_VLQ,
            Err(e) => read_payload(bytes@, pos as int) == Err::<(Seq<u8>, int), ReadError>(e),
        },
{
    let total: usize = bytes.len();
    match VLQ::decode(bytes, pos) {
        Err(e) => Err(e),
        Ok((len, n)) => {
            let start: usize = pos + n;
            let size: u32 = len.value();
            if size as usize > total - start {
                Err(ReadError::TruncatedInput)
            } else {
                let end: usize = start + size as usize;
                Ok((copy_range(bytes, start, end), end))
            }
        },
    }
}

/// Decodes a channel voice event under `status`, whose parameter bytes
/// start at `pos`.
pub fn decode_voice(bytes: &[u8], pos: usize, least: usize, delta_time: VLQ, status: u8) -> (r:
    Result<(Message, usize, Option<u8>), ReadError>)
    requires
        pos <= least <= pos + 1,
        least <= bytes@.len(),
    ensures
        match r {
            Ok((m, next, st)) => read_voice(bytes@, pos as int, least as int, delta_time@, status)
                == Ok::<EventRead, ReadError>(
                EventRead { message: m@, next: next as int, status: st },
            ) && least <= next <= bytes@.len() && m@.encodable() == delta_time.well_formed(),
            Err(e) => read_voice(bytes@, pos as int, least as int, delta_time@, status) == Err::<
                EventRead,
                ReadError,
            >(e),
        },
{
    let mut builder = MidiEventBuilder::new(status);
    let mut p: usize = pos;
    while builder.shortage() > 0
        invariant
            pos <= p <= bytes@.len(),
            builder.well_formed(),
            builder.spec_status() == status,
            builder.spec_data() == bytes@.subrange(pos as int, p as int),
        decreases builder.spec_shortage(),
    {
        if p >= bytes.len() {
            return Err(ReadError::TruncatedInput);
        }
        builder.push(bytes[p]);
        p = p + 1;
        assert(builder.spec_data() =~= bytes@.subrange(pos as int, p as int));
    }
    let event = builder.build();
    let next: usize = if p < least {
        least
    } else {
        p
    };
    Ok((Message::MidiEvent { delta_time, event }, next, Some(status)))
}

/// Decodes the event at `pos` under the running status `running`.
pub fn decode_event(bytes: &[u8], pos: usize, running: Option<u8>) -> (r: Result<
    (Message, usize, Option<u8>),
    ReadError,
>)
    ensures
        match r {
            Ok((m, next, st)) => read_event(bytes@, pos as int, running) == Ok::<
                EventRead,
                ReadError,
            >(EventRead { message: m@, next: next as int, status: st }) && pos < next
                <= bytes@.len() && m@.encodable(),
            Err(e) => read_event(bytes@, pos as int, running) == Err::<EventRead, ReadError>(e),
        },
{
    reveal(read_event);
    let total: usize = bytes.len();
    let (delta_time, n) = match VLQ::decode(bytes, pos) {
        Err(e) => { return Err(e); },
        Ok(found) => found,
    };
    let p: usize = pos + n;
    if p >= bytes.len() {
        return Err(ReadError::TruncatedInput);
    }
    let b: u8 = bytes[p];
    if b == 0xFF {
        if p + 1 >= bytes.len() {
            return Err(ReadError::TruncatedInput);
        }
        let event = MetaEvent::new(bytes[p + 1]);
        match decode_payload(bytes, p + 2) {
            Err(e) => Err(e),
            Ok((data, next)) => Ok((Message::MetaEvent { delta_time, event, data }, next, None)),
        }
    } else if b == 0xF0 || b == 0xF7 {
        let event = SysExEvent::new(b);
        match decode_payload(bytes, p + 1) {
            Err(e) => Err(e),
            Ok((data, next)) => Ok((Message::SysExEvent { delta_time, event, data }, next, None)),
        }
    } else if b >= 0x80 {
        decode_voice(bytes, p + 1, p + 1, delta_time, b)
    } else {
        match running {
            None => Err(ReadError::MissingStatus),
            Some(status) => decode_voice(bytes, p, p + 1, delta_time, status),
        }
    }
}

/// Decodes the events from `pos` up to `end` and appends them to `out`;
/// gives the error that ended decoding, if any.
pub fn decode_events(bytes: &[u8], pos: usize, end: usize, out: &mut Vec<Message>) -> (r: Option<
    ReadError,
>)
    requires
        pos <= end <= bytes@.len(),
    ensures
        views(final(out)@) == views(old(out)@) + read_events(bytes@, pos as int, end as int, None).0,
        r == read_events(bytes@, pos as int, end as int, None).1,
{
    let ghost s = bytes@;
    let ghost whole = read_events(s, pos as int, end as int, None);
    let mut p: usize = pos;
    let mut running: Option<u8> = None;
    while p < end
        invariant
            pos <= p <= end <= bytes@.len(),
            s == bytes@,
            whole == read_events(s, pos as int, end as int, None),
            whole.0 == views(out@).subrange(views(old(out)@).len() as int, views(out@).len() as int)
                + read_events(s, p as int, end as int, running).0,
            whole.1 == read_events(s, p as int, end as int, running).1,
            views(old(out)@) == views(out@).subrange(0, views(old(out)@).len() as int),
            old(out)@.len() <= out@.len(),
        decreases end - p,
    {
        let ghost before = views(out@);
        let ghost base = views(old(out)@).len() as int;
        match decode_event(bytes, p, running) {
            Err(e) => {
                assert(views(out@) =~= views(old(out)@) + whole.0);
                return Some(e);
            },
            Ok((m, next, st)) => {
                if next > end {
                    assert(views(out@) =~= views(old(out)@) + whole.0);
                    return Some(ReadError::LengthMismatch);
                }
                let ghost rest = read_events(s, next as int, end as int, st);
                assert(read_events(s, p as int, end as int, running).0 == seq![m@] + rest.0);
                out.push(m);
                assert(views(out@) =~= before.push(m@));
                assert(views(out@).subrange(base, views(out@).len() as int) =~= before.subrange(
                    base,
                    before.len() as int,
                ).push(m@));
                assert(whole.0 =~= views(out@).subrange(base, views(out@).len() as int) + rest.0);
                assert(views(old(out)@) =~= views(out@).subrange(0, base));
                p = next;
                running = st;
            },
        }
    }
    assert(views(out@) =~= views(old(out)@) + whole.0);
    None
}

/// What came of decoding a file image.
pub struct Decoded {
    /// The header, where decoding got as far.
    pub header: Option<Header>,
    /// The messages in file order, up to the first error.
    pub messages: Vec<Message>,
    /// The error that ended decoding, if any.
    pub error: Option<ReadError>,
}

impl View for Decoded {
    type V = ReadView;

    open spec fn view(&self) -> ReadView {
        ReadView { header: self.header, messages: views(self.messages@), error: self.error }
    }
}

/// Decodes the track chunk at `pos` and appends its messages to `out`;
/// gives the error that ended decoding, if any, and the index behind the
/// chunk.
pub fn decode_track(bytes: &[u8], pos: usize, first: bool, out: &mut Vec<Message>) -> (r: (
    Option<ReadError>,
    usize,
))
    requires
        pos <= bytes@.len(),
    ensures
        views(final(out)@) == views(old(out)@) + read_track(bytes@, pos as int, first).messages,
        r.0 == read_track(bytes@, pos as int, first).error,
        r.1 == read_track(bytes@, pos as int, first).next,
        r.1 <= bytes@.len(),
{
    reveal(read_track);
    let ghost before = views(out@);
    let total: usize = bytes.len();
    if total - pos < 4 {
        assert(views(out@) =~= before + Seq::<MessageView>::empty());
        return (Some(ReadError::TruncatedInput), pos);
    }
    if !Tag::Track.matches_at(bytes, pos) {
        assert(views(out@) =~= before + Seq::<MessageView>::empty());
        return (Some(ReadError::UnexpectedTag), pos);
    }
    if !first {
        out.push(Message::TrackChange);
    }
    let ghost lead = if first {
        Seq::<MessageView>::empty()
    } else {
        seq![MessageView::TrackChange]
    };
    assert(views(out@) =~= before + lead);
    if total - pos < 8 {
        return (Some(ReadError::TruncatedInput), pos);
    }
    let len: u32 = get_be32(bytes, pos + 4);
    if len as usize > total - pos - 8 {
        return (Some(ReadError::TruncatedInput), pos);
    }
    let end: usize = pos + 8 + len as usize;
    let ghost events = read_events(bytes@, pos + 8, end as int, None);
    let failed = decode_events(bytes, pos + 8, end, out);
    assert(views(out@) =~= before + (lead + events.0));
    (failed, end)
}

/// Decodes the track chunks from `pos` on, as many as `count`, and gives
/// the messages together with the error that ended decoding, if any.
pub fn decode_tracks(bytes: &[u8], pos: usize, count: u16) -> (r: (Vec<Message>, Option<ReadError>))
    requires
        pos <= bytes@.len(),
    ensures
        views(r.0@) == read_tracks(bytes@, pos as int, count as nat, true).0,
        r.1 == read_tracks(bytes@, pos as int, count as nat, true).1,
{
    let ghost s = bytes@;
    let ghost whole = read_tracks(s, pos as int, count as nat, true);
    let mut out: Vec<Message> = Vec::new();
    let mut p: usize = pos;
    let mut t: u16 = 0;
    assert(views(out@) =~= Seq::<MessageView>::empty());
    assert(whole.0 =~= views(out@) + whole.0);
    while t < count
        invariant
            t <= count,
            p <= bytes@.len(),
            s == bytes@,
            whole == read_tracks(s, pos as int, count as nat, true),
            whole.0 == views(out@) + read_tracks(s, p as int, (count - t) as nat, t == 0).0,
            whole.1 == read_tracks(s, p as int, (count - t) as nat, t == 0).1,
        decreases count - t,
    {
        let ghost before = views(out@);
        let ghost left = (count - t) as nat;
        let ghost track = read_track(s, p as int, t == 0);
        let ghost here = read_tracks(s, p as int, left, t == 0);
        let ghost rest = read_tracks(s, track.next, (left - 1) as nat, false);
        assert(here == if track.error.is_some() {
            (track.messages, track.error)
        } else {
            (track.messages + rest.0, rest.1)
        });
        let (failed, end) = decode_track(bytes, p, t == 0, &mut out);
        assert(views(out@) == before + track.messages);
        if failed.is_some() {
            return (out, failed);
        }
        assert(whole.0 == before + (track.messages + rest.0));
        assert(before + (track.messages + rest.0) =~= before + track.messages + rest.0);
        p = end;
        t = t + 1;
        assert((count - t) as nat == (left - 1) as nat);
    }
    assert(whole.0 =~= views(out@));
    (out, None)
}

/// Decodes a file image: the header chunk, then as many track chunks as
/// the header counts.
pub fn decode(bytes: &[u8]) -> (r: Decoded)
    ensures
        r@ == read_file(bytes@),
{
    let messages: Vec<Message> = Vec::new();
    assert(views(messages@) =~= Seq::<MessageView>::empty());
    if bytes.len() < 4 {
        return Decoded { header: None, messages, error: Some(ReadError::TruncatedInput) };
    }
    if !Tag::Header.matches_at(bytes, 0) {
        return Decoded { header: None, messages, error: Some(ReadError::UnexpectedTag) };
    }
    if bytes.len() < 8 {
        return Decoded { header: None, messages, error: Some(ReadError::TruncatedInput) };
    }
    if get_be32(bytes, 4) != 6 {
        return Decoded { header: None, messages, error: Some(ReadError::InvalidHeaderLength) };
    }
    if bytes.len() < 14 {
        return Decoded { header: None, messages, error: Some(ReadError::TruncatedInput) };
    }
    let header = Header {
        format: get_be16(bytes, 8),
        track_count: get_be16(bytes, 10),
        time_base: get_be16(bytes, 12),
    };
    let (messages, error) = decode_tracks(bytes, 14, header.track_count);
    Decoded { header: Some(header), messages, error }
}

/// Holds a file image and decodes it.
pub struct Reader {
    bytes: Vec<u8>,
}

impl Reader {
    /// The file image that the reader holds.
    pub closed spec fn image(&self) -> Seq<u8> {
        self.bytes@
    }

    /// A reader for the file image `bytes`.
    pub fn new(bytes: Vec<u8>) -> (r: Reader)
        ensures
            r.image() == bytes@,
    {
        Reader { bytes }
    }

    /// Decodes the file image from its first byte to its last track.
    pub fn read(&self) -> (r: Decoded)
        ensures
            r@ == read_file(self.image()),
    {
        decode(self.bytes.as_slice())
    }
}

} // verus!
