//! What holds between the encoder and the decoder.

use vstd::prelude::*;
use crate::formats::{lemma_vlq_round_trip, vlq_bytes, vlq_decode, vlq_len, ReadError, MAX_VLQ};
use crate::messages::{
    lemma_len_is_binary_len, bend_value, bend_wire, event_of, param_count, sysex_payload, MessageTool, MessageView,
    MetaEvent, MidiEvent, SysExEvent,
};
use crate::formats::{be16, be32, header_tag, read_be16, read_be32, track_tag};
use crate::reader::{
    read_event, read_events, read_file, read_meta, read_payload, read_sysex, read_track,
    read_tracks, read_voice, EventRead, Header, ReadView, TrackRead,
};
use crate::writer::{
    changes_from, elided, emitted, file_bytes, header_bytes, status_after, track_body,
    track_count, track_end, tracks_bytes, tracks_fit, writable,
};

verus! {

/// Whether a decoder reads the message back from its wire form: it has a
/// wire form, a meta event is of the kind that its code selects, a channel
/// voice event is well formed, and a system exclusive event opens with
/// 0xF0 or 0xF7. A track boundary is no event.
pub open spec fn round_trips(m: MessageView) -> bool {
    m.encodable() && match m {
        MessageView::MetaEvent { event, .. } => event.canonical(),
        MessageView::MidiEvent { event, .. } => event.well_formed(),
        MessageView::SysExEvent { event, .. } => event == SysExEvent::F0 || event
            == SysExEvent::F7,
        MessageView::TrackChange => false,
    }
}

/// The message that a decoder hands out for the wire form of `m`: `m`
/// itself, but for an `F0` event, whose payload comes back as it went
/// out, without a leading 0xF0.
pub open spec fn read_back(m: MessageView) -> MessageView {
    match m {
        MessageView::SysExEvent { delta_time, event, data } => MessageView::SysExEvent {
            delta_time,
            event,
            data: sysex_payload(event, data),
        },
        _ => m,
    }
}

/// A well-formed channel voice event is the one that its own status byte
/// and parameter bytes spell, and its status byte asks for as many
/// parameter bytes as it has.
pub proof fn lemma_midi_event_round_trip(e: MidiEvent)
    requires
        e.well_formed(),
    ensures
        event_of(e.spec_status(), e.params()) == e,
        param_count(e.spec_status()) == e.params().len(),
        0x80 <= e.spec_status() < 0xF0,
{
    let st = e.spec_status();
    assert(st / 16 == e.kind());
    assert(st % 16 == e.channel());
    match e {
        MidiEvent::PitchBendChange { ch, data } => {
            let w = bend_wire(data);
            assert(e.params()[0] == (w % 128) as u8);
            assert(e.params()[1] == (w / 128) as u8);
            assert(bend_value(e.params()[0], e.params()[1]) == data);
        },
        _ => {
            assert(forall|i: int| 0 <= i < e.params().len() ==> #[trigger] e.params()[i] < 128);
        },
    }
}

/// Pitch bend is symmetric: for every fourteen-bit wire value `w`, the
/// event that carries the centred value `w - 8192` goes out as the low
/// and the high seven bits of `w`, and those two bytes spell the same
/// event again.
pub proof fn lemma_pitch_bend_symmetry(ch: u8, w: int)
    requires
        0 <= w < 16384,
    ensures
        ({
            let e = MidiEvent::PitchBendChange { ch, data: (w - 8192) as i16 };
            &&& e.encodable()
            &&& e.params() == seq![(w % 128) as u8, (w / 128) as u8]
            &&& e.params()[0] + 128 * e.params()[1] == w
            &&& bend_wire(bend_value(e.params()[0], e.params()[1])) == w
            &&& event_of(e.spec_status(), e.params()) == MidiEvent::PitchBendChange {
                ch: ch % 16,
                data: (w - 8192) as i16,
            }
        }),
{
    let e = MidiEvent::PitchBendChange { ch, data: (w - 8192) as i16 };
    let st = e.spec_status();
    assert(st / 16 == 14);
    assert(st % 16 == ch % 16);
    assert(e.params()[0] == (w % 128) as u8);
    assert(e.params()[1] == (w / 128) as u8);
}

/// A length-prefixed payload survives the wire, wherever it stands.
pub proof fn lemma_payload_round_trip(before: Seq<u8>, data: Seq<u8>, after: Seq<u8>)
    requires
        data.len() <= MAX_VLQ,
    ensures
        read_payload(before + vlq_bytes(data.len()) + data + after, before.len() as int) == Ok::<
            (Seq<u8>, int),
            ReadError,
        >((data, (before.len() + vlq_len(data.len()) + data.len()) as int)),
{
    let s = before + vlq_bytes(data.len()) + data + after;
    lemma_vlq_round_trip(data.len(), before, data + after);
    assert(s =~= before + vlq_bytes(data.len()) + (data + after));
    let start = (before.len() + vlq_len(data.len())) as int;
    assert(s.subrange(start, start + data.len()) =~= data);
}

/// Parameter bytes survive the wire: read under the status byte of a
/// well-formed event, they spell that event.
pub proof fn lemma_voice_round_trip(
    before: Seq<u8>,
    e: MidiEvent,
    after: Seq<u8>,
    least: int,
    delta_time: nat,
)
    requires
        e.well_formed(),
        least <= before.len() + 1,
    ensures
        read_voice(
            before + e.params() + after,
            before.len() as int,
            least,
            delta_time,
            e.spec_status(),
        ) == Ok::<EventRead, ReadError>(
            EventRead {
                message: MessageView::MidiEvent { delta_time, event: e },
                next: (before.len() + e.params().len()) as int,
                status: Some(e.spec_status()),
            },
        ),
{
    lemma_midi_event_round_trip(e);
    let s = before + e.params() + after;
    let pos = before.len() as int;
    assert(e.params().len() >= 1);
    assert(s.subrange(pos, pos + e.params().len()) =~= e.params());
}

/// A meta event survives the wire.
proof fn lemma_meta_round_trip(
    delta_time: nat,
    event: MetaEvent,
    data: Seq<u8>,
    last: Option<u8>,
    before: Seq<u8>,
    after: Seq<u8>,
)
    requires
        delta_time <= MAX_VLQ,
        data.len() <= MAX_VLQ,
        event.canonical(),
    ensures
        ({
            let m = MessageView::MetaEvent { delta_time, event, data };
            read_event(before + m.binary() + after, before.len() as int, last) == Ok::<
                EventRead,
                ReadError,
            >(
                EventRead {
                    message: m,
                    next: (before.len() + m.binary().len()) as int,
                    status: None,
                },
            )
        }),
{
    reveal(read_event);
    let m = MessageView::MetaEvent { delta_time, event, data };
    let s = before + m.binary() + after;
    let pos = before.len() as int;
    let head = seq![0xFFu8, event.code()];
    let tail = head + vlq_bytes(data.len()) + data;
    lemma_vlq_round_trip(delta_time, before, tail + after);
    lemma_vlq_round_trip(data.len(), before, after);
    assert(s =~= before + vlq_bytes(delta_time) + (tail + after));
    let p = pos + vlq_len(delta_time);
    assert(s[p] == head[0]);
    assert(s[p + 1] == head[1]);
    let front = before + vlq_bytes(delta_time) + head;
    lemma_payload_round_trip(front, data, after);
    assert(s =~= front + vlq_bytes(data.len()) + data + after);
    assert(read_meta(s, p + 1, delta_time) == Ok::<EventRead, ReadError>(
        EventRead { message: m, next: p + 2 + vlq_len(data.len()) + data.len(), status: None },
    ));
}

/// A system exclusive event survives the wire, but for the leading 0xF0
/// that an `F0` event leaves behind.
proof fn lemma_sysex_round_trip(
    delta_time: nat,
    event: SysExEvent,
    data: Seq<u8>,
    last: Option<u8>,
    before: Seq<u8>,
    after: Seq<u8>,
)
    requires
        delta_time <= MAX_VLQ,
        data.len() <= MAX_VLQ,
        event == SysExEvent::F0 || event == SysExEvent::F7,
    ensures
        ({
            let m = MessageView::SysExEvent { delta_time, event, data };
            read_event(before + m.binary() + after, before.len() as int, last) == Ok::<
                EventRead,
                ReadError,
            >(
                EventRead {
                    message: read_back(m),
                    next: (before.len() + m.binary().len()) as int,
                    status: None,
                },
            )
        }),
{
    reveal(read_event);
    let m = MessageView::SysExEvent { delta_time, event, data };
    let s = before + m.binary() + after;
    let pos = before.len() as int;
    let head = seq![event.spec_status()];
    let sent = sysex_payload(event, data);
    let tail = head + vlq_bytes(sent.len()) + sent;
    lemma_vlq_round_trip(delta_time, before, tail + after);
    lemma_vlq_round_trip(sent.len(), before, after);
    assert(s =~= before + vlq_bytes(delta_time) + (tail + after));
    let p = pos + vlq_len(delta_time);
    assert(s[p] == head[0]);
    let front = before + vlq_bytes(delta_time) + head;
    lemma_payload_round_trip(front, sent, after);
    assert(s =~= front + vlq_bytes(sent.len()) + sent + after);
    assert(read_sysex(s, p + 1, delta_time, s[p]) == Ok::<EventRead, ReadError>(
        EventRead {
            message: read_back(m),
            next: p + 1 + vlq_len(sent.len()) + sent.len(),
            status: None,
        },
    ));
}

/// A channel voice event survives the wire, with its status byte or
/// without.
proof fn lemma_midi_round_trip(
    delta_time: nat,
    event: MidiEvent,
    running: bool,
    last: Option<u8>,
    before: Seq<u8>,
    after: Seq<u8>,
)
    requires
        delta_time <= MAX_VLQ,
        event.well_formed(),
    ensures
        ({
            let m = MessageView::MidiEvent { delta_time, event };
            read_event(before + emitted(m, running, last) + after, before.len() as int, last)
                == Ok::<EventRead, ReadError>(
                EventRead {
                    message: m,
                    next: (before.len() + emitted(m, running, last).len()) as int,
                    status: Some(event.spec_status()),
                },
            )
        }),
{
    reveal(read_event);
    let m = MessageView::MidiEvent { delta_time, event };
    let s = before + emitted(m, running, last) + after;
    let pos = before.len() as int;
    lemma_midi_event_round_trip(event);
    let p = pos + vlq_len(delta_time);
    if elided(event, running, last) {
        let tail = event.params();
        lemma_vlq_round_trip(delta_time, before, tail + after);
        assert(s =~= before + vlq_bytes(delta_time) + (tail + after));
        assert(s[p] == tail[0]);
        assert(tail[0] < 128);
        lemma_voice_round_trip(before + vlq_bytes(delta_time), event, after, p + 1, delta_time);
        assert(s =~= before + vlq_bytes(delta_time) + event.params() + after);
    } else {
        let head = seq![event.spec_status()];
        let tail = head + event.params();
        lemma_vlq_round_trip(delta_time, before, tail + after);
        assert(s =~= before + vlq_bytes(delta_time) + (tail + after));
        assert(s[p] == head[0]);
        lemma_voice_round_trip(
            before + vlq_bytes(delta_time) + head,
            event,
            after,
            p + 1,
            delta_time,
        );
        assert(s =~= before + vlq_bytes(delta_time) + head + event.params() + after);
    }
}

/// Every message that round-trips is read back from what the encoder
/// emits for it, with or without its status byte, wherever those bytes
/// stand: the decoder, under the running status that the encoder leans
/// on, hands out the same delta time, event and payload, ends behind the
/// last emitted byte, and is left with the running status that the
/// encoder has after the message.
pub proof fn lemma_message_round_trip(
    m: MessageView,
    running: bool,
    last: Option<u8>,
    before: Seq<u8>,
    after: Seq<u8>,
)
    requires
        round_trips(m),
    ensures
        read_event(before + emitted(m, running, last) + after, before.len() as int, last) == Ok::<
            EventRead,
            ReadError,
        >(
            EventRead {
                message: read_back(m),
                next: (before.len() + emitted(m, running, last).len()) as int,
                status: status_after(m),
            },
        ),
        emitted(m, running, last).len() >= 1,
{
    match m {
        MessageView::MetaEvent { delta_time, event, data } => {
            lemma_meta_round_trip(delta_time, event, data, last, before, after);
        },
        MessageView::SysExEvent { delta_time, event, data } => {
            lemma_sysex_round_trip(delta_time, event, data, last, before, after);
        },
        MessageView::MidiEvent { delta_time, event } => {
            lemma_midi_round_trip(delta_time, event, running, last, before, after);
        },
        MessageView::TrackChange => {},
    }
}

/// Running status saves exactly the status byte: where the encoder leans
/// on the status byte before, it emits the full wire form of the event
/// but for its status byte, one byte less; where it does not, it emits
/// the full wire form.
pub proof fn lemma_running_status_saves_one_byte(
    delta_time: nat,
    event: MidiEvent,
    last: Option<u8>,
)
    requires
        delta_time <= MAX_VLQ,
    ensures
        ({
            let m = MessageView::MidiEvent { delta_time, event };
            &&& emitted(m, false, last) == m.binary()
            &&& elided(event, true, last) ==> emitted(m, true, last).len() + 1 == m.binary().len()
            &&& !elided(event, true, last) ==> emitted(m, true, last) == m.binary()
        }),
{
}

/// Whether every message of the list is a track boundary or round-trips.
pub open spec fn all_round_trip(msgs: Seq<MessageView>) -> bool {
    forall|i: int| 0 <= i < msgs.len() ==> (#[trigger] msgs[i]) is TrackChange || round_trips(msgs[i])
}

/// The messages that a decoder hands out for the track that starts at
/// `from`: those up to the next track boundary, each as it is read back.
pub open spec fn track_messages(msgs: Seq<MessageView>, from: int) -> Seq<MessageView> {
    Seq::new((track_end(msgs, from) - from) as nat, |i: int| read_back(msgs[from + i]))
}

/// The messages that a decoder hands out for the list from `from` on:
/// each as it is read back, behind a track boundary unless the track is
/// the first of the file.
pub open spec fn file_messages(msgs: Seq<MessageView>, from: int, first: bool) -> Seq<MessageView> {
    let lead = if first {
        Seq::<MessageView>::empty()
    } else {
        seq![MessageView::TrackChange]
    };
    lead + Seq::new((msgs.len() - from) as nat, |i: int| read_back(msgs[from + i]))
}

/// A track ends at or behind its start and within the list, at a track
/// boundary where it ends before the list does; and the track boundaries
/// from its start on are that one and those behind it.
pub proof fn lemma_track_end(msgs: Seq<MessageView>, from: int)
    requires
        0 <= from <= msgs.len(),
    ensures
        from <= track_end(msgs, from) <= msgs.len(),
        track_end(msgs, from) < msgs.len() ==> msgs[track_end(msgs, from)] is TrackChange,
        forall|i: int| from <= i < track_end(msgs, from) ==> !(#[trigger] msgs[i] is TrackChange),
        changes_from(msgs, from) == if track_end(msgs, from) < msgs.len() {
            1 + changes_from(msgs, track_end(msgs, from) + 1)
        } else {
            0
        },
    decreases msgs.len() - from,
{
    if from < msgs.len() && !(msgs[from] is TrackChange) {
        lemma_track_end(msgs, from + 1);
    }
}

/// Four big-endian bytes spell the number they were made of.
pub proof fn lemma_be32_round_trip(before: Seq<u8>, v: nat, after: Seq<u8>)
    requires
        v <= u32::MAX,
    ensures
        read_be32(before + be32(v) + after, before.len() as int) == v,
{
    let s = before + be32(v) + after;
    let p = before.len() as int;
    assert(s[p] == be32(v)[0]);
    assert(s[p + 1] == be32(v)[1]);
    assert(s[p + 2] == be32(v)[2]);
    assert(s[p + 3] == be32(v)[3]);
}

/// Two big-endian bytes spell the number they were made of.
pub proof fn lemma_be16_round_trip(before: Seq<u8>, v: nat, after: Seq<u8>)
    requires
        v <= u16::MAX,
    ensures
        read_be16(before + be16(v) + after, before.len() as int) == v,
{
    let s = before + be16(v) + after;
    let p = before.len() as int;
    assert(s[p] == be16(v)[0]);
    assert(s[p + 1] == be16(v)[1]);
}

/// The events of a track survive the wire: decoded within the bounds of
/// what the encoder emitted for the track, they come back one for one,
/// and no error ends the decoding.
pub proof fn lemma_track_body_round_trip(
    msgs: Seq<MessageView>,
    from: int,
    running: bool,
    last: Option<u8>,
    before: Seq<u8>,
    after: Seq<u8>,
)
    requires
        all_round_trip(msgs),
        0 <= from <= msgs.len(),
    ensures
        ({
            let body = track_body(msgs, from, running, last);
            read_events(
                before + body + after,
                before.len() as int,
                (before.len() + body.len()) as int,
                last,
            ) == (track_messages(msgs, from), None::<ReadError>)
        }),
    decreases msgs.len() - from,
{
    let body = track_body(msgs, from, running, last);
    let s = before + body + after;
    let pos = before.len() as int;
    let end = (before.len() + body.len()) as int;
    lemma_track_end(msgs, from);
    if from >= msgs.len() || msgs[from] is TrackChange {
        assert(track_messages(msgs, from) =~= Seq::<MessageView>::empty());
    } else {
        let m = msgs[from];
        let e = emitted(m, running, last);
        let rest = track_body(msgs, from + 1, running, status_after(m));
        assert(body == e + rest);
        lemma_message_round_trip(m, running, last, before, rest + after);
        assert(s =~= before + e + (rest + after));
        lemma_track_body_round_trip(msgs, from + 1, running, status_after(m), before + e, after);
        assert(s =~= (before + e) + rest + after);
        lemma_track_end(msgs, from + 1);
        assert(track_messages(msgs, from) =~= seq![read_back(m)] + track_messages(msgs, from + 1));
        let r = read_event(s, pos, last).unwrap();
        assert(r.next == pos + e.len());
        assert(read_events(s, r.next, end, r.status) == (
            track_messages(msgs, from + 1),
            None::<ReadError>,
        ));
    }
}

/// A track chunk survives the wire.
pub proof fn lemma_track_chunk_round_trip(
    msgs: Seq<MessageView>,
    from: int,
    running: bool,
    first: bool,
    before: Seq<u8>,
    after: Seq<u8>,
)
    requires
        all_round_trip(msgs),
        0 <= from <= msgs.len(),
        track_body(msgs, from, running, None).len() <= u32::MAX,
    ensures
        ({
            let body = track_body(msgs, from, running, None);
            let chunk = track_tag() + be32(body.len()) + body;
            let lead = if first {
                Seq::<MessageView>::empty()
            } else {
                seq![MessageView::TrackChange]
            };
            read_track(before + chunk + after, before.len() as int, first) == (TrackRead {
                messages: lead + track_messages(msgs, from),
                error: None,
                next: (before.len() + chunk.len()) as int,
            })
        }),
{
    reveal(read_track);
    let body = track_body(msgs, from, running, None);
    let chunk = track_tag() + be32(body.len()) + body;
    let s = before + chunk + after;
    let pos = before.len() as int;
    assert(s.subrange(pos, pos + 4) =~= track_tag());
    lemma_be32_round_trip(before + track_tag(), body.len(), body + after);
    assert(s =~= before + track_tag() + be32(body.len()) + (body + after));
    lemma_track_body_round_trip(
        msgs,
        from,
        running,
        None,
        before + track_tag() + be32(body.len()),
        after,
    );
    assert(s =~= before + track_tag() + be32(body.len()) + body + after);
}

/// The track chunks survive the wire: decoded as many as the list has
/// tracks, they give every message back as it is read, a track boundary
/// between any two tracks, and no error.
pub proof fn lemma_tracks_round_trip(
    msgs: Seq<MessageView>,
    from: int,
    running: bool,
    first: bool,
    before: Seq<u8>,
)
    requires
        all_round_trip(msgs),
        0 <= from <= msgs.len(),
        tracks_fit(msgs, from, running),
    ensures
        read_tracks(
            before + tracks_bytes(msgs, from, running),
            before.len() as int,
            1 + changes_from(msgs, from),
            first,
        ) == (file_messages(msgs, from, first), None::<ReadError>),
    decreases msgs.len() - from,
{
    let body = track_body(msgs, from, running, None);
    let chunk = track_tag() + be32(body.len()) + body;
    let end = track_end(msgs, from);
    let s = before + tracks_bytes(msgs, from, running);
    let lead = if first {
        Seq::<MessageView>::empty()
    } else {
        seq![MessageView::TrackChange]
    };
    lemma_track_end(msgs, from);
    if end < msgs.len() {
        let rest = tracks_bytes(msgs, end + 1, running);
        lemma_track_chunk_round_trip(msgs, from, running, first, before, rest);
        assert(s =~= before + chunk + rest);
        lemma_tracks_round_trip(msgs, end + 1, running, false, before + chunk);
        assert(s =~= (before + chunk) + rest);
        assert(file_messages(msgs, from, first) =~= lead + track_messages(msgs, from)
            + file_messages(msgs, end + 1, false));
    } else {
        lemma_track_chunk_round_trip(msgs, from, running, first, before, Seq::<u8>::empty());
        assert(s =~= before + chunk + Seq::<u8>::empty());
        assert(file_messages(msgs, from, first) =~= lead + track_messages(msgs, from));
        let track = read_track(s, before.len() as int, first);
        assert(read_tracks(s, track.next, 0, false) == (
            Seq::<MessageView>::empty(),
            None::<ReadError>,
        ));
        assert(track.messages + Seq::<MessageView>::empty() =~= track.messages);
    }
}

/// A file survives the wire: where every message of a list round-trips
/// and the list has a file image, decoding that image, written with
/// running status or without, gives the header that was written, format
/// one with the number of tracks and the time base, and every message
/// back in order as it is read, the track boundaries among them, and no
/// error.
pub proof fn lemma_file_round_trip(msgs: Seq<MessageView>, running: bool, time_base: u16)
    requires
        all_round_trip(msgs),
        writable(msgs, running),
    ensures
        read_file(file_bytes(msgs, running, time_base)) == (ReadView {
            header: Some(
                Header { format: 1, track_count: track_count(msgs) as u16, time_base },
            ),
            messages: Seq::new(msgs.len(), |i: int| read_back(msgs[i])),
            error: None,
        }),
{
    let head = header_bytes(track_count(msgs), time_base);
    let tracks = tracks_bytes(msgs, 0, running);
    let s = head + tracks;
    assert(s.subrange(0, 4) =~= header_tag());
    lemma_be32_round_trip(header_tag(), 6, be16(1) + be16(track_count(msgs)) + be16(
        time_base as nat,
    ) + tracks);
    assert(s =~= header_tag() + be32(6) + (be16(1) + be16(track_count(msgs)) + be16(
        time_base as nat,
    ) + tracks));
    lemma_be16_round_trip(header_tag() + be32(6), 1, be16(track_count(msgs)) + be16(
        time_base as nat,
    ) + tracks);
    assert(s =~= header_tag() + be32(6) + be16(1) + (be16(track_count(msgs)) + be16(
        time_base as nat,
    ) + tracks));
    lemma_be16_round_trip(
        header_tag() + be32(6) + be16(1),
        track_count(msgs),
        be16(time_base as nat) + tracks,
    );
    assert(s =~= header_tag() + be32(6) + be16(1) + be16(track_count(msgs)) + (be16(
        time_base as nat,
    ) + tracks));
    lemma_be16_round_trip(
        header_tag() + be32(6) + be16(1) + be16(track_count(msgs)),
        time_base as nat,
        tracks,
    );
    lemma_tracks_round_trip(msgs, 0, running, true, head);
    assert(file_messages(msgs, 0, true) =~= Seq::new(msgs.len(), |i: int| read_back(msgs[i])));
}

/// Two consecutive notes on one channel: with running status the track
/// is exactly one byte shorter than without, the status byte of the
/// second note, and so is the file; and decoding either file gives the
/// same header, the same two notes and no error.
pub proof fn lemma_running_status_two_notes(
    first_delta: nat,
    second_delta: nat,
    ch: u8,
    first_note: (u8, u8),
    second_note: (u8, u8),
    time_base: u16,
)
    requires
        first_delta <= MAX_VLQ,
        second_delta <= MAX_VLQ,
        ch < 16,
        first_note.0 < 128 && first_note.1 < 128,
        second_note.0 < 128 && second_note.1 < 128,
    ensures
        ({
            let a = MessageView::MidiEvent {
                delta_time: first_delta,
                event: MidiEvent::NoteOn { ch, note: first_note.0, velocity: first_note.1 },
            };
            let b = MessageView::MidiEvent {
                delta_time: second_delta,
                event: MidiEvent::NoteOn { ch, note: second_note.0, velocity: second_note.1 },
            };
            let msgs = seq![a, b];
            &&& track_body(msgs, 0, true, None) == a.binary() + vlq_bytes(second_delta)
                + seq![second_note.0, second_note.1]
            &&& track_body(msgs, 0, false, None) == a.binary() + b.binary()
            &&& track_body(msgs, 0, true, None).len() + 1 == track_body(msgs, 0, false, None).len()
            &&& file_bytes(msgs, true, time_base).len() + 1 == file_bytes(
                msgs,
                false,
                time_base,
            ).len()
            &&& read_file(file_bytes(msgs, true, time_base)) == read_file(
                file_bytes(msgs, false, time_base),
            )
            &&& read_file(file_bytes(msgs, true, time_base)).messages == msgs
            &&& read_file(file_bytes(msgs, true, time_base)).error.is_none()
        }),
{
    let ea = MidiEvent::NoteOn { ch, note: first_note.0, velocity: first_note.1 };
    let eb = MidiEvent::NoteOn { ch, note: second_note.0, velocity: second_note.1 };
    let a = MessageView::MidiEvent { delta_time: first_delta, event: ea };
    let b = MessageView::MidiEvent { delta_time: second_delta, event: eb };
    let msgs = seq![a, b];
    let none = Seq::<u8>::empty();
    lemma_vlq_round_trip(first_delta, none, none);
    lemma_vlq_round_trip(second_delta, none, none);
    assert(ea.params().len() == 2 && eb.params().len() == 2);
    assert(ea.params()[0] < 128 && ea.params()[1] < 128);
    assert(eb.params()[0] < 128 && eb.params()[1] < 128);
    assert(ea.well_formed() && eb.well_formed());
    assert(ea.spec_status() == eb.spec_status());
    assert(forall|run: bool, last: Option<u8>| #[trigger]
        track_body(msgs, 2, run, last) == Seq::<u8>::empty());
    assert(forall|run: bool| #[trigger]
        track_body(msgs, 1, run, Some(ea.spec_status())) == emitted(
            b,
            run,
            Some(ea.spec_status()),
        ) + track_body(msgs, 2, run, status_after(b)));
    assert(forall|run: bool| #[trigger]
        track_body(msgs, 0, run, None) == emitted(a, run, None) + track_body(
            msgs,
            1,
            run,
            status_after(a),
        ));
    assert(eb.params() =~= seq![second_note.0, second_note.1]);
    assert(track_body(msgs, 0, true, None) =~= a.binary() + vlq_bytes(second_delta)
        + seq![second_note.0, second_note.1]);
    assert(track_body(msgs, 0, false, None) =~= a.binary() + b.binary());
    assert(track_end(msgs, 2) == 2);
    assert(track_end(msgs, 1) == 2);
    assert(track_end(msgs, 0) == 2);
    assert(changes_from(msgs, 2) == 0);
    assert(changes_from(msgs, 1) == 0);
    assert(changes_from(msgs, 0) == 0);
    assert(tracks_fit(msgs, 0, true));
    assert(tracks_fit(msgs, 0, false));
    lemma_file_round_trip(msgs, true, time_base);
    lemma_file_round_trip(msgs, false, time_base);
    assert(Seq::new(msgs.len(), |i: int| read_back(msgs[i])) =~= msgs);
}

/// The track boundaries of two lists laid end to end are those of the
/// one and those of the other.
pub proof fn lemma_changes_concat(a: Seq<MessageView>, b: Seq<MessageView>, i: int)
    requires
        0 <= i <= a.len() + b.len(),
    ensures
        i <= a.len() ==> changes_from(a + b, i) == changes_from(a, i) + changes_from(b, 0),
        i >= a.len() ==> changes_from(a + b, i) == changes_from(b, i - a.len()),
    decreases a.len() + b.len() - i,
{
    if i < a.len() + b.len() {
        lemma_changes_concat(a, b, i + 1);
    }
}

/// No event of a track is a track boundary.
pub proof fn lemma_events_hold_no_change(s: Seq<u8>, pos: int, end: int, running: Option<u8>)
    ensures
        changes_from(read_events(s, pos, end, running).0, 0) == 0,
    decreases end - pos,
{
    reveal(read_event);
    if pos < end {
        match read_event(s, pos, running) {
            Err(e) => {},
            Ok(r) => {
                if pos < r.next <= end {
                    let rest = read_events(s, r.next, end, r.status);
                    lemma_events_hold_no_change(s, r.next, end, r.status);
                    lemma_changes_concat(seq![r.message], rest.0, 0);
                    lemma_changes_concat(seq![r.message], rest.0, 1);
                    assert(!(r.message is TrackChange));
                    assert(changes_from(seq![r.message], 0) == 0);
                }
            },
        }
    }
}

/// Where as many track chunks as `remaining` are decoded without an
/// error, every one of them but the first of the file is announced by
/// exactly one track boundary.
pub proof fn lemma_tracks_change_count(s: Seq<u8>, pos: int, remaining: nat, first: bool)
    requires
        read_tracks(s, pos, remaining, first).1.is_none(),
    ensures
        changes_from(read_tracks(s, pos, remaining, first).0, 0) == if remaining == 0 {
            0
        } else if first {
            remaining - 1
        } else {
            remaining as int
        },
    decreases remaining,
{
    reveal(read_track);
    if remaining > 0 {
        let track = read_track(s, pos, first);
        let rest = read_tracks(s, track.next, (remaining - 1) as nat, false);
        lemma_tracks_change_count(s, track.next, (remaining - 1) as nat, false);
        let end = pos + 8 + read_be32(s, pos + 4);
        let events = read_events(s, pos + 8, end, None);
        lemma_events_hold_no_change(s, pos + 8, end, None);
        let lead = if first {
            Seq::<MessageView>::empty()
        } else {
            seq![MessageView::TrackChange]
        };
        assert(track.messages == lead + events.0);
        lemma_changes_concat(lead, events.0, 0);
        lemma_changes_concat(track.messages, rest.0, 0);
        if !first {
            assert(changes_from(lead, 1) == 0);
        }
    }
}

/// The number of track boundaries: a file of `n` tracks, `n` at least
/// one, that is decoded without an error gives exactly `n - 1` of them.
pub proof fn lemma_track_change_count(s: Seq<u8>)
    requires
        read_file(s).error.is_none(),
    ensures
        read_file(s).header.is_some(),
        read_file(s).header.unwrap().track_count >= 1 ==> changes_from(read_file(s).messages, 0)
            == read_file(s).header.unwrap().track_count - 1,
        read_file(s).header.unwrap().track_count == 0 ==> read_file(s).messages.len() == 0,
{
    let count = read_be16(s, 10) as u16;
    lemma_tracks_change_count(s, 14, count as nat, true);
}

/// Every event takes at least one byte: the decoder ends behind where it
/// started.
pub proof fn lemma_event_advances(s: Seq<u8>, pos: int, running: Option<u8>)
    requires
        0 <= pos,
        read_event(s, pos, running).is_ok(),
    ensures
        pos < read_event(s, pos, running).unwrap().next <= s.len(),
{
    reveal(read_event);
    reveal(vlq_decode);
}

/// The lengths of the messages of the track that starts at `from`, added
/// up.
pub open spec fn track_len(msgs: Seq<MessageView>, from: int) -> nat
    decreases msgs.len() - from,
{
    if from < 0 || from >= msgs.len() || msgs[from] is TrackChange {
        0
    } else {
        msgs[from].len() + track_len(msgs, from + 1)
    }
}

/// Without running status a track is as long as its messages are
/// together, and holds their wire forms one behind the other.
pub proof fn lemma_track_length_is_sum(msgs: Seq<MessageView>, from: int, last: Option<u8>)
    requires
        0 <= from <= msgs.len(),
        forall|i: int| 0 <= i < msgs.len() ==> (#[trigger] msgs[i]).encodable(),
    ensures
        track_body(msgs, from, false, last).len() == track_len(msgs, from),
        from < msgs.len() && !(msgs[from] is TrackChange) ==> track_body(msgs, from, false, last)
            == msgs[from].binary() + track_body(msgs, from + 1, false, status_after(msgs[from])),
    decreases msgs.len() - from,
{
    if from < msgs.len() && !(msgs[from] is TrackChange) {
        lemma_len_is_binary_len(msgs[from]);
        lemma_track_length_is_sum(msgs, from + 1, status_after(msgs[from]));
    }
}

} // verus!
