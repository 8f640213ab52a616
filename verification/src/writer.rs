//! The encoder: gathers messages and lays them out as a file image.

use vstd::prelude::*;
use crate::formats::{be16, be32, header_tag, push_all, push_be16, push_be32, track_tag, vlq_bytes, Tag};
use crate::messages::{views, Message, MessageTool, MessageView, MidiEvent};

verus! {

/// The time base that a new writer starts with, in ticks per quarter note.
pub const DEFAULT_TIME_BASE: u16 = 480;

/// Why a list of messages has no file image.
#[derive(Clone, Copy, Debug, PartialEq, Eq, Structural)]
pub enum WriteError {
    /// There are more tracks than the header's sixteen bits can count.
    TooManyTracks,
    /// A track is longer than the thirty-two bits of its length field.
    TrackTooLong,
}

/// Whether the status byte of `event` is left out: running status is on,
/// the event is of a known kind, and the status byte emitted just before
/// it in the same track is its own.
pub open spec fn elided(event: MidiEvent, running: bool, last: Option<u8>) -> bool {
    running && !(event is Unknown) && last == Some(event.spec_status())
}

/// The bytes that one message adds to its track, where `last` is the
/// status byte that a following channel voice message may lean on.
pub open spec fn emitted(m: MessageView, running: bool, last: Option<u8>) -> Seq<u8> {
    match m {
        MessageView::MidiEvent { delta_time, event } => if elided(event, running, last) {
            vlq_bytes(delta_time) + event.params()
        } else {
            m.binary()
        },
        _ => m.binary(),
    }
}

/// The status byte that the message after `m` may lean on: that of a
/// channel voice message of a known kind, and none after anything else.
pub open spec fn status_after(m: MessageView) -> Option<u8> {
    match m {
        MessageView::MidiEvent { event, .. } => if event is Unknown {
            None
        } else {
            Some(event.spec_status())
        },
        _ => None,
    }
}

/// Index of the track boundary at or after `from`, or the length of the
/// list where there is none.
pub open spec fn track_end(msgs: Seq<MessageView>, from: int) -> int
    decreases msgs.len() - from,
{
    if from < 0 || from >= msgs.len() || msgs[from] is TrackChange {
        from
    } else {
        track_end(msgs, from + 1)
    }
}

/// The events of the track that starts at `from`, up to the next track
/// boundary, as they go out.
pub open spec fn track_body(
    msgs: Seq<MessageView>,
    from: int,
    running: bool,
    last: Option<u8>,
) -> Seq<u8>
    decreases msgs.len() - from,
{
    if from < 0 || from >= msgs.len() || msgs[from] is TrackChange {
        Seq::<u8>::empty()
    } else {
        emitted(msgs[from], running, last) + track_body(
            msgs,
            from + 1,
            running,
            status_after(msgs[from]),
        )
    }
}

/// The track chunk that starts at `from`, and every track chunk after it:
/// each is the tag, the length of its events in four bytes, and the events.
pub open spec fn tracks_bytes(msgs: Seq<MessageView>, from: int, running: bool) -> Seq<u8>
    decreases msgs.len() - from,
{
    let body = track_body(msgs, from, running, None);
    let end = track_end(msgs, from);
    let chunk = track_tag() + be32(body.len()) + body;
    if 0 <= from <= end < msgs.len() {
        chunk + tracks_bytes(msgs, end + 1, running)
    } else {
        chunk
    }
}

/// Whether the track that starts at `from`, and every track after it, has
/// a length that fits its length field.
pub open spec fn tracks_fit(msgs: Seq<MessageView>, from: int, running: bool) -> bool
    decreases msgs.len() - from,
{
    let body = track_body(msgs, from, running, None);
    let end = track_end(msgs, from);
    body.len() <= u32::MAX && (0 <= from <= end < msgs.len() ==> tracks_fit(
        msgs,
        end + 1,
        running,
    ))
}

/// Number of track boundaries at or after `from`.
pub open spec fn changes_from(msgs: Seq<MessageView>, from: int) -> nat
    decreases msgs.len() - from,
{
    if from < 0 || from >= msgs.len() {
        0
    } else if msgs[from] is TrackChange {
        1 + changes_from(msgs, from + 1)
    } else {
        changes_from(msgs, from + 1)
    }
}

/// Number of tracks that the list makes up: one more than it has track
/// boundaries.
pub open spec fn track_count(msgs: Seq<MessageView>) -> nat {
    1 + changes_from(msgs, 0)
}

/// Whether the list has a file image.
pub open spec fn writable(msgs: Seq<MessageView>, running: bool) -> bool {
    track_count(msgs) <= u16::MAX && tracks_fit(msgs, 0, running)
}

/// The header chunk: the tag, the length six, the format one, the number
/// of tracks and the time base.
pub open spec fn header_bytes(tracks: nat, time_base: u16) -> Seq<u8> {
    header_tag() + be32(6) + be16(1) + be16(tracks) + be16(time_base as nat)
}

/// The file image of the list: the header chunk and the track chunks.
pub open spec fn file_bytes(msgs: Seq<MessageView>, running: bool, time_base: u16) -> Seq<u8> {
    header_bytes(track_count(msgs), time_base) + tracks_bytes(msgs, 0, running)
}

/// Appends to `out` what `m` adds to its track, and gives the status byte
/// that the next message may lean on.
pub fn emit(out: &mut Vec<u8>, m: &Message, running: bool, last: Option<u8>) -> (r: Option<u8>)
    requires
        m@.encodable(),
    ensures
        final(out)@ == old(out)@ + emitted(m@, running, last),
        r == status_after(m@),
{
    match m {
        Message::MidiEvent { delta_time, event } => {
            let status: u8 = event.status_byte();
            let known: bool = match event {
                MidiEvent::Unknown { .. } => false,
                _ => true,
            };
            let same: bool = match last {
                Some(s) => s == status,
                None => false,
            };
            let mut head: Vec<u8> = delta_time.binary();
            out.append(&mut head);
            let tail: Vec<u8> = event.binary();
            if running && known && same {
                push_all(out, tail.as_slice(), 1);
                assert(tail@.subrange(1, tail@.len() as int) =~= event.params());
                assert(out@ =~= old(out)@ + emitted(m@, running, last));
            } else {
                push_all(out, tail.as_slice(), 0);
                assert(tail@.subrange(0, tail@.len() as int) =~= tail@);
                assert(out@ =~= old(out)@ + emitted(m@, running, last));
            }
            if known {
                Some(status)
            } else {
                None
            }
        },
        _ => {
            let mut all: Vec<u8> = m.binary();
            out.append(&mut all);
            None
        },
    }
}

/// Lays out the events of the track that starts at `from`, and tells where
/// the track ends: at the next track boundary or at the end of the list.
pub fn track_events(messages: &Vec<Message>, from: usize, running: bool) -> (r: (Vec<u8>, usize))
    requires
        from <= messages@.len(),
        forall|i: int| 0 <= i < messages@.len() ==> (#[trigger] messages@[i])@.encodable(),
    ensures
        r.0@ == track_body(views(messages@), from as int, running, None),
        r.1 == track_end(views(messages@), from as int),
        from <= r.1 <= messages@.len(),
{
    let ghost msgs = views(messages@);
    let n: usize = messages.len();
    let mut body: Vec<u8> = Vec::new();
    let mut last: Option<u8> = None;
    let mut j: usize = from;
    let mut open: bool = true;
    while open && j < n
        invariant
            from <= j <= n,
            n == messages@.len(),
            msgs == views(messages@),
            forall|i: int| 0 <= i < messages@.len() ==> (#[trigger] messages@[i])@.encodable(),
            track_body(msgs, from as int, running, None) == body@ + track_body(
                msgs,
                j as int,
                running,
                last,
            ),
            track_end(msgs, from as int) == track_end(msgs, j as int),
            !open ==> j < n && msgs[j as int] is TrackChange,
        decreases (if open { 1 + n - j } else { 0 }),
    {
        match messages[j] {
            Message::TrackChange => {
                open = false;
            },
            _ => {
                let ghost before = body@;
                let ghost prev = last;
                let ghost m = msgs[j as int];
                assert(m == messages@[j as int]@);
                let ghost rest = track_body(msgs, j + 1, running, status_after(m));
                assert(track_body(msgs, j as int, running, prev) == emitted(m, running, prev)
                    + rest);
                last = emit(&mut body, &messages[j], running, last);
                j = j + 1;
                assert(before + (emitted(m, running, prev) + rest) =~= before + emitted(
                    m,
                    running,
                    prev,
                ) + rest);
            },
        }
    }
    assert(track_body(msgs, j as int, running, last) =~= Seq::<u8>::empty());
    assert(body@ =~= track_body(msgs, from as int, running, None));
    (body, j)
}

/// Gathers messages in the order in which they are pushed, and lays them
/// out as a file image.
pub struct Writer {
    messages: Vec<Message>,
    running_status: bool,
    time_base: u16,
}

impl Writer {
    /// The messages pushed so far, in order.
    pub closed spec fn messages(&self) -> Seq<MessageView> {
        views(self.messages@)
    }

    /// Whether repeated status bytes are left out.
    pub closed spec fn uses_running_status(&self) -> bool {
        self.running_status
    }

    /// The time base that goes into the header.
    pub closed spec fn spec_time_base(&self) -> u16 {
        self.time_base
    }

    /// Every message that the writer holds has a wire form.
    pub open spec fn well_formed(&self) -> bool {
        forall|i: int| 0 <= i < self.messages().len() ==> (#[trigger] self.messages()[i]).encodable()
    }

    /// A writer that holds no message, writes every status byte out and
    /// uses the default time base.
    pub fn new() -> (r: Writer)
        ensures
            r.well_formed(),
            r.messages() == Seq::<MessageView>::empty(),
            !r.uses_running_status(),
            r.spec_time_base() == DEFAULT_TIME_BASE,
    {
        let r = Writer { messages: Vec::new(), running_status: false, time_base: DEFAULT_TIME_BASE };
        assert(r.messages() =~= Seq::<MessageView>::empty());
        r
    }

    /// Switches running status on or off.
    pub fn running_status(&mut self, running_status: bool)
        ensures
            final(self).uses_running_status() == running_status,
            final(self).messages() == old(self).messages(),
            final(self).spec_time_base() == old(self).spec_time_base(),
    {
        self.running_status = running_status;
    }

    /// Sets the time base that goes into the header.
    pub fn time_base(&mut self, time_base: u16)
        ensures
            final(self).spec_time_base() == time_base,
            final(self).messages() == old(self).messages(),
            final(self).uses_running_status() == old(self).uses_running_status(),
    {
        self.time_base = time_base;
    }

    /// Adds a message behind those that the writer holds.
    pub fn push(&mut self, message: Message)
        requires
            old(self).well_formed(),
            message@.encodable(),
        ensures
            final(self).well_formed(),
            final(self).messages() == old(self).messages().push(message@),
            final(self).uses_running_status() == old(self).uses_running_status(),
            final(self).spec_time_base() == old(self).spec_time_base(),
    {
        self.messages.push(message);
        assert(self.messages() =~= old(self).messages().push(message@));
    }

    /// Appends the file image of the messages to `destination`, or leaves
    /// it as it is where the messages have no file image.
    pub fn write(&self, destination: &mut Vec<u8>) -> (r: Result<(), WriteError>)
        requires
            self.well_formed(),
        ensures
            r.is_ok() <==> writable(self.messages(), self.uses_running_status()),
            r.is_ok() ==> final(destination)@ == old(destination)@ + file_bytes(
                self.messages(),
                self.uses_running_status(),
                self.spec_time_base(),
            ),
            r.is_err() ==> final(destination)@ == old(destination)@,
            r == Err::<(), WriteError>(WriteError::TooManyTracks) <==> track_count(self.messages())
                > u16::MAX,
    {
        let ghost msgs = self.messages();
        let running: bool = self.running_status;
        let n: usize = self.messages.len();
        let mut changes: usize = 0;
        let mut k: usize = 0;
        while k < n
            invariant
                k <= n,
                n == self.messages@.len(),
                msgs == views(self.messages@),
                changes <= k,
                changes_from(msgs, 0) == changes + changes_from(msgs, k as int),
            decreases n - k,
        {
            match self.messages[k] {
                Message::TrackChange => {
                    changes = changes + 1;
                },
                _ => {},
            }
            k = k + 1;
        }
        if changes >= 0xFFFF {
            return Err(WriteError::TooManyTracks);
        }
        let mut out: Vec<u8> = Vec::new();
        let tag = Tag::Header.binary();
        push_all(&mut out, tag.as_slice(), 0);
        push_be32(&mut out, 6);
        push_be16(&mut out, 1);
        push_be16(&mut out, (changes + 1) as u16);
        push_be16(&mut out, self.time_base);
        assert(out@ =~= header_bytes(track_count(msgs), self.time_base));
        let ghost file = file_bytes(msgs, running, self.time_base);
        let mut i: usize = 0;
        let mut more: bool = true;
        while more
            invariant
                i <= n,
                n == self.messages@.len(),
                msgs == views(self.messages@),
                msgs == self.messages(),
                self.well_formed(),
                running == self.running_status,
                file == file_bytes(msgs, running, self.time_base),
                track_count(msgs) <= u16::MAX,
                more ==> file == out@ + tracks_bytes(msgs, i as int, running),
                !more ==> file == out@,
                more ==> tracks_fit(msgs, 0, running) == tracks_fit(msgs, i as int, running),
                !more ==> tracks_fit(msgs, 0, running),
            decreases (if more { 1 + n - i } else { 0 }),
        {
            assert forall|q: int| 0 <= q < self.messages@.len() implies (#[trigger] self.messages@[q])@.encodable() by {
                assert(self.messages()[q].encodable());
            }
            let (mut body, j) = track_events(&self.messages, i, running);
            if body.len() > 0xFFFF_FFFF {
                return Err(WriteError::TrackTooLong);
            }
            let ghost head = out@;
            let ghost chunk = track_tag() + be32(body@.len()) + body@;
            let tag = Tag::Track.binary();
            push_all(&mut out, tag.as_slice(), 0);
            push_be32(&mut out, body.len() as u32);
            out.append(&mut body);
            proof {
                assert(tag@.subrange(0, 4) =~= track_tag());
                assert(out@ =~= head + chunk);
            }
            if j < n {
                proof {
                    let rest = tracks_bytes(msgs, j + 1, running);
                    assert(tracks_bytes(msgs, i as int, running) == chunk + rest);
                    assert(head + (chunk + rest) =~= (head + chunk) + rest);
                }
                i = j + 1;
            } else {
                assert(tracks_bytes(msgs, i as int, running) == chunk);
                more = false;
            }
        }
        destination.append(&mut out);
        Ok(())
    }
}

} // verus!
