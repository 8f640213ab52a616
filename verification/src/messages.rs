//! The event model: what a track holds, and how each event is laid out on
//! the wire.

use vstd::prelude::*;
use crate::formats::{lemma_vlq_round_trip, push_all, track_tag, vlq_bytes, vlq_len, Tag, MAX_VLQ, VLQ};

verus! {

/// What every kind of event can tell about its wire form.
pub trait MessageTool {
    /// Whether the event has a wire form.
    spec fn encodable(&self) -> bool;

    /// The bytes of the event itself: the status byte and what the kind of
    /// event fixes behind it.
    spec fn spec_binary(&self) -> Seq<u8>;

    /// The bytes of the event itself.
    fn binary(&self) -> (r: Vec<u8>)
        requires
            self.encodable(),
        ensures
            r@ == self.spec_binary(),
    ;

    /// The number of those bytes.
    fn len(&self) -> (r: usize)
        ensures
            r == self.spec_binary().len(),
    ;

    /// The first of those bytes.
    fn status_byte(&self) -> (r: u8)
        ensures
            self.spec_binary().len() >= 1,
            r == self.spec_binary()[0],
    ;
}

/// The kinds of meta event.
#[derive(Clone, Copy, Debug, PartialEq, Eq, Structural)]
pub enum MetaEvent {
    SequenceNumber,
    TextEvent,
    CopyrightNotice,
    SequenceOrTrackName,
    InstrumentName,
    Lyric,
    Marker,
    CuePoint,
    MIDIChannelPrefix,
    EndOfTrack,
    SetTempo,
    SMTPEOffset,
    TimeSignature,
    KeySignature,
    SequencerSpecificMetaEvent,
    Unknown { event_type: u8 },
}

impl MetaEvent {
    /// The byte that selects this kind on the wire.
    pub open spec fn code(&self) -> u8 {
        match *self {
            MetaEvent::SequenceNumber => 0x00,
            MetaEvent::TextEvent => 0x01,
            MetaEvent::CopyrightNotice => 0x02,
            MetaEvent::SequenceOrTrackName => 0x03,
            MetaEvent::InstrumentName => 0x04,
            MetaEvent::Lyric => 0x05,
            MetaEvent::Marker => 0x06,
            MetaEvent::CuePoint => 0x07,
            MetaEvent::MIDIChannelPrefix => 0x20,
            MetaEvent::EndOfTrack => 0x2F,
            MetaEvent::SetTempo => 0x51,
            MetaEvent::SMTPEOffset => 0x54,
            MetaEvent::TimeSignature => 0x58,
            MetaEvent::KeySignature => 0x59,
            MetaEvent::SequencerSpecificMetaEvent => 0x7F,
            MetaEvent::Unknown { event_type } => event_type,
        }
    }

    /// The kind that the byte `event_type` selects.
    pub open spec fn from_code(event_type: u8) -> MetaEvent {
        if event_type == 0x00 {
            MetaEvent::SequenceNumber
        } else if event_type == 0x01 {
            MetaEvent::TextEvent
        } else if event_type == 0x02 {
            MetaEvent::CopyrightNotice
        } else if event_type == 0x03 {
            MetaEvent::SequenceOrTrackName
        } else if event_type == 0x04 {
            MetaEvent::InstrumentName
        } else if event_type == 0x05 {
            MetaEvent::Lyric
        } else if event_type == 0x06 {
            MetaEvent::Marker
        } else if event_type == 0x07 {
            MetaEvent::CuePoint
        } else if event_type == 0x20 {
            MetaEvent::MIDIChannelPrefix
        } else if event_type == 0x2F {
            MetaEvent::EndOfTrack
        } else if event_type == 0x51 {
            MetaEvent::SetTempo
        } else if event_type == 0x54 {
            MetaEvent::SMTPEOffset
        } else if event_type == 0x58 {
            MetaEvent::TimeSignature
        } else if event_type == 0x59 {
            MetaEvent::KeySignature
        } else if event_type == 0x7F {
            MetaEvent::SequencerSpecificMetaEvent
        } else {
            MetaEvent::Unknown { event_type }
        }
    }

    /// A kind is canonical when it is the one that its own code selects: an
    /// `Unknown` that carries the code of a named kind is not.
    pub open spec fn canonical(&self) -> bool {
        MetaEvent::from_code(self.code()) == *self
    }

    /// The kind that the byte `event_type` selects.
    pub fn new(event_type: u8) -> (r: MetaEvent)
        ensures
            r == MetaEvent::from_code(event_type),
            r.code() == event_type,
            r.canonical(),
    {
        match event_type {
            0x00 => MetaEvent::SequenceNumber,
            0x01 => MetaEvent::TextEvent,
            0x02 => MetaEvent::CopyrightNotice,
            0x03 => MetaEvent::SequenceOrTrackName,
            0x04 => MetaEvent::InstrumentName,
            0x05 => MetaEvent::Lyric,
            0x06 => MetaEvent::Marker,
            0x07 => MetaEvent::CuePoint,
            0x20 => MetaEvent::MIDIChannelPrefix,
            0x2F => MetaEvent::EndOfTrack,
            0x51 => MetaEvent::SetTempo,
            0x54 => MetaEvent::SMTPEOffset,
            0x58 => MetaEvent::TimeSignature,
            0x59 => MetaEvent::KeySignature,
            0x7F => MetaEvent::SequencerSpecificMetaEvent,
            _ => MetaEvent::Unknown { event_type },
        }
    }

    /// The byte that selects this kind on the wire.
    pub fn event_type(&self) -> (r: u8)
        ensures
            r == self.code(),
    {
        match *self {
            MetaEvent::SequenceNumber => 0x00,
            MetaEvent::TextEvent => 0x01,
            MetaEvent::CopyrightNotice => 0x02,
            MetaEvent::SequenceOrTrackName => 0x03,
            MetaEvent::InstrumentName => 0x04,
            MetaEvent::Lyric => 0x05,
            MetaEvent::Marker => 0x06,
            MetaEvent::CuePoint => 0x07,
            MetaEvent::MIDIChannelPrefix => 0x20,
            MetaEvent::EndOfTrack => 0x2F,
            MetaEvent::SetTempo => 0x51,
            MetaEvent::SMTPEOffset => 0x54,
            MetaEvent::TimeSignature => 0x58,
            MetaEvent::KeySignature => 0x59,
            MetaEvent::SequencerSpecificMetaEvent => 0x7F,
            MetaEvent::Unknown { event_type } => event_type,
        }
    }
}

impl MessageTool for MetaEvent {
    open spec fn encodable(&self) -> bool {
        true
    }

    open spec fn spec_binary(&self) -> Seq<u8> {
        seq![0xFFu8, self.code()]
    }

    fn binary(&self) -> (r: Vec<u8>) {
        let mut out: Vec<u8> = Vec::new();
        out.push(self.status_byte());
        out.push(self.event_type());
        assert(out@ =~= self.spec_binary());
        out
    }

    fn len(&self) -> (r: usize) {
        2
    }

    fn status_byte(&self) -> (r: u8) {
        0xff
    }
}

/// The channel voice messages.
#[derive(Clone, Copy, Debug, PartialEq, Eq, Structural)]
#[allow(inconsistent_fields)]
pub enum MidiEvent {
    NoteOff { ch: u8, note: u8, velocity: u8 },
    NoteOn { ch: u8, note: u8, velocity: u8 },
    PolyphonicKeyPressure { ch: u8, note: u8, velocity: u8 },
    ControlChange { ch: u8, control: u8, data: u8 },
    ProgramChange { ch: u8, program: u8 },
    ChannelPressure { ch: u8, pressure: u8 },
    PitchBendChange { ch: u8, data: i16 },
    Unknown { ch: u8 },
}

/// Number of parameter bytes that follow the status byte `status`.
pub open spec fn param_count(status: u8) -> nat {
    let kind = status / 16;
    if 8 <= kind <= 11 || kind == 14 {
        2
    } else if kind == 12 || kind == 13 {
        1
    } else {
        0
    }
}

/// The wire value of a pitch bend: the centred value moved up by 8192.
pub open spec fn bend_wire(data: i16) -> int {
    data + 8192
}

/// The centred pitch bend that two parameter bytes spell: the first holds
/// the low seven bits of the wire value, the second the high seven. The
/// top bit of either byte carries nothing and is passed over, so the
/// result always lies in the fourteen-bit range.
pub open spec fn bend_value(low: u8, high: u8) -> i16 {
    ((high % 128) * 128 + (low % 128) - 8192) as i16
}

/// The event that the status byte `status` and its parameter bytes spell.
pub open spec fn event_of(status: u8, params: Seq<u8>) -> MidiEvent
    recommends
        params.len() == param_count(status),
{
    let ch = status % 16;
    let kind = status / 16;
    if kind == 8 {
        MidiEvent::NoteOff { ch, note: params[0], velocity: params[1] }
    } else if kind == 9 {
        MidiEvent::NoteOn { ch, note: params[0], velocity: params[1] }
    } else if kind == 10 {
        MidiEvent::PolyphonicKeyPressure { ch, note: params[0], velocity: params[1] }
    } else if kind == 11 {
        MidiEvent::ControlChange { ch, control: params[0], data: params[1] }
    } else if kind == 12 {
        MidiEvent::ProgramChange { ch, program: params[0] }
    } else if kind == 13 {
        MidiEvent::ChannelPressure { ch, pressure: params[0] }
    } else if kind == 14 {
        MidiEvent::PitchBendChange { ch, data: bend_value(params[0], params[1]) }
    } else {
        MidiEvent::Unknown { ch }
    }
}

impl MidiEvent {
    /// The channel that the event names.
    pub open spec fn channel(&self) -> u8 {
        match *self {
            MidiEvent::NoteOff { ch, .. } => ch,
            MidiEvent::NoteOn { ch, .. } => ch,
            MidiEvent::PolyphonicKeyPressure { ch, .. } => ch,
            MidiEvent::ControlChange { ch, .. } => ch,
            MidiEvent::ProgramChange { ch, .. } => ch,
            MidiEvent::ChannelPressure { ch, .. } => ch,
            MidiEvent::PitchBendChange { ch, .. } => ch,
            MidiEvent::Unknown { ch } => ch,
        }
    }

    /// The high four bits of the status byte. An `Unknown` goes out under
    /// the same bits as a `NoteOff`.
    pub open spec fn kind(&self) -> u8 {
        match *self {
            MidiEvent::NoteOff { .. } => 8,
            MidiEvent::NoteOn { .. } => 9,
            MidiEvent::PolyphonicKeyPressure { .. } => 10,
            MidiEvent::ControlChange { .. } => 11,
            MidiEvent::ProgramChange { .. } => 12,
            MidiEvent::ChannelPressure { .. } => 13,
            MidiEvent::PitchBendChange { .. } => 14,
            MidiEvent::Unknown { .. } => 8,
        }
    }

    /// The status byte: the kind in the high four bits, the low four bits
    /// of the channel below them.
    pub open spec fn spec_status(&self) -> u8 {
        (self.kind() * 16 + self.channel() % 16) as u8
    }

    /// The parameter bytes that follow the status byte.
    pub open spec fn params(&self) -> Seq<u8> {
        match *self {
            MidiEvent::NoteOff { note, velocity, .. } => seq![note, velocity],
            MidiEvent::NoteOn { note, velocity, .. } => seq![note, velocity],
            MidiEvent::PolyphonicKeyPressure { note, velocity, .. } => seq![note, velocity],
            MidiEvent::ControlChange { control, data, .. } => seq![control, data],
            MidiEvent::ProgramChange { program, .. } => seq![program],
            MidiEvent::ChannelPressure { pressure, .. } => seq![pressure],
            MidiEvent::PitchBendChange { data, .. } => seq![
                (bend_wire(data) % 128) as u8,
                (bend_wire(data) / 128) as u8,
            ],
            MidiEvent::Unknown { .. } => Seq::<u8>::empty(),
        }
    }

    /// An event is well formed when a decoder reads it back as it stands:
    /// the channel is below 16, every parameter is below 128, a pitch bend
    /// lies in its fourteen bits, and the kind is a known one.
    pub open spec fn well_formed(&self) -> bool {
        &&& self.channel() < 16
        &&& self.encodable()
        &&& !(*self is Unknown)
        &&& forall|i: int| 0 <= i < self.params().len() ==> #[trigger] self.params()[i] < 128
    }
}

impl MessageTool for MidiEvent {
    open spec fn encodable(&self) -> bool {
        match *self {
            MidiEvent::PitchBendChange { data, .. } => -8192 <= data < 8192,
            _ => true,
        }
    }

    open spec fn spec_binary(&self) -> Seq<u8> {
        seq![self.spec_status()] + self.params()
    }

    fn binary(&self) -> (r: Vec<u8>) {
        let mut out: Vec<u8> = Vec::new();
        out.push(self.status_byte());
        match *self {
            MidiEvent::NoteOff { note, velocity, .. } => {
                out.push(note);
                out.push(velocity);
            },
            MidiEvent::NoteOn { note, velocity, .. } => {
                out.push(note);
                out.push(velocity);
            },
            MidiEvent::PolyphonicKeyPressure { note, velocity, .. } => {
                out.push(note);
                out.push(velocity);
            },
            MidiEvent::ControlChange { control, data, .. } => {
                out.push(control);
                out.push(data);
            },
            MidiEvent::ProgramChange { program, .. } => {
                out.push(program);
            },
            MidiEvent::ChannelPressure { pressure, .. } => {
                out.push(pressure);
            },
            MidiEvent::PitchBendChange { data, .. } => {
                let wire: u16 = (data as i32 + 8192) as u16;
                out.push((wire % 128) as u8);
                out.push((wire / 128) as u8);
            },
            MidiEvent::Unknown { .. } => {},
        }
        assert(out@ =~= self.spec_binary());
        out
    }

    fn len(&self) -> (r: usize) {
        match *self {
            MidiEvent::NoteOff { .. }
            | MidiEvent::NoteOn { .. }
            | MidiEvent::PolyphonicKeyPressure { .. }
            | MidiEvent::ControlChange { .. }
            | MidiEvent::PitchBendChange { .. } => 3,
            MidiEvent::ProgramChange { .. } | MidiEvent::ChannelPressure { .. } => 2,
            MidiEvent::Unknown { .. } => 1,
        }
    }

    fn status_byte(&self) -> (r: u8) {
        match *self {
            MidiEvent::NoteOff { ch, .. } => 0x80 + ch % 16,
            MidiEvent::NoteOn { ch, .. } => 0x90 + ch % 16,
            MidiEvent::PolyphonicKeyPressure { ch, .. } => 0xa0 + ch % 16,
            MidiEvent::ControlChange { ch, .. } => 0xb0 + ch % 16,
            MidiEvent::ProgramChange { ch, .. } => 0xc0 + ch % 16,
            MidiEvent::ChannelPressure { ch, .. } => 0xd0 + ch % 16,
            MidiEvent::PitchBendChange { ch, .. } => 0xe0 + ch % 16,
            MidiEvent::Unknown { ch } => 0x80 + ch % 16,
        }
    }
}

/// Gathers the parameter bytes of a channel voice message, which may
/// arrive one by one, and makes the event of them.
pub struct MidiEventBuilder {
    status: u8,
    shortage: u8,
    data: Vec<u8>,
}

impl MidiEventBuilder {
    /// The status byte that the builder was made for.
    pub closed spec fn spec_status(&self) -> u8 {
        self.status
    }

    /// The parameter bytes gathered so far.
    pub closed spec fn spec_data(&self) -> Seq<u8> {
        self.data@
    }

    /// The number of parameter bytes still wanted.
    pub closed spec fn spec_shortage(&self) -> nat {
        self.shortage as nat
    }

    /// What is gathered and what is wanted make up what the status asks for.
    pub open spec fn well_formed(&self) -> bool {
        self.spec_data().len() + self.spec_shortage() == param_count(self.spec_status())
    }

    /// A builder for the event that `status` opens, with nothing gathered.
    pub fn new(status: u8) -> (r: MidiEventBuilder)
        ensures
            r.well_formed(),
            r.spec_status() == status,
            r.spec_data() == Seq::<u8>::empty(),
            r.spec_shortage() == param_count(status),
    {
        let kind: u8 = status / 16;
        let shortage: u8 = if (8 <= kind && kind <= 11) || kind == 14 {
            2
        } else if kind == 12 || kind == 13 {
            1
        } else {
            0
        };
        MidiEventBuilder { status, shortage, data: Vec::new() }
    }

    /// Takes one more parameter byte, unless the event is complete already.
    pub fn push(&mut self, data: u8)
        requires
            old(self).well_formed(),
        ensures
            final(self).well_formed(),
            final(self).spec_status() == old(self).spec_status(),
            old(self).spec_shortage() > 0 ==> final(self).spec_data() == old(self).spec_data().push(
                data,
            ) && final(self).spec_shortage() == old(self).spec_shortage() - 1,
            old(self).spec_shortage() == 0 ==> final(self).spec_data() == old(self).spec_data()
                && final(self).spec_shortage() == 0,
    {
        if self.shortage > 0 {
            self.data.push(data);
            self.shortage -= 1;
        }
    }

    /// The number of parameter bytes still wanted.
    pub fn shortage(&self) -> (r: u8)
        ensures
            r == self.spec_shortage(),
    {
        self.shortage
    }

    /// The event that the status byte and the gathered bytes spell.
    pub fn build(&self) -> (r: MidiEvent)
        requires
            self.well_formed(),
            self.spec_shortage() == 0,
        ensures
            r == event_of(self.spec_status(), self.spec_data()),
            r.encodable(),
    {
        let ch: u8 = self.status % 16;
        let kind: u8 = self.status / 16;
        if kind == 8 {
            MidiEvent::NoteOff { ch, note: self.data[0], velocity: self.data[1] }
        } else if kind == 9 {
            MidiEvent::NoteOn { ch, note: self.data[0], velocity: self.data[1] }
        } else if kind == 10 {
            MidiEvent::PolyphonicKeyPressure { ch, note: self.data[0], velocity: self.data[1] }
        } else if kind == 11 {
            MidiEvent::ControlChange { ch, control: self.data[0], data: self.data[1] }
        } else if kind == 12 {
            MidiEvent::ProgramChange { ch, program: self.data[0] }
        } else if kind == 13 {
            MidiEvent::ChannelPressure { ch, pressure: self.data[0] }
        } else if kind == 14 {
            let lsb: i16 = (self.data[0] % 128) as i16;
            let msb: i16 = (self.data[1] % 128) as i16;
            MidiEvent::PitchBendChange { ch, data: msb * 128 + lsb - 8192 }
        } else {
            MidiEvent::Unknown { ch }
        }
    }
}

/// The kinds of system exclusive event.
#[derive(Clone, Copy, Debug, PartialEq, Eq, Structural)]
pub enum SysExEvent {
    F0,
    F7,
    Unknown { status: u8 },
}

impl SysExEvent {
    /// The status byte of this kind.
    pub open spec fn spec_status(&self) -> u8 {
        match *self {
            SysExEvent::F0 => 0xf0,
            SysExEvent::F7 => 0xf7,
            SysExEvent::Unknown { status } => status,
        }
    }

    /// The kind that the status byte `status` opens.
    pub open spec fn from_status(status: u8) -> SysExEvent {
        if status == 0xF0 {
            SysExEvent::F0
        } else if status == 0xF7 {
            SysExEvent::F7
        } else {
            SysExEvent::Unknown { status }
        }
    }

    /// The kind that the status byte `status` opens.
    pub fn new(status: u8) -> (r: SysExEvent)
        ensures
            r == SysExEvent::from_status(status),
            r.spec_status() == status,
    {
        match status {
            0xF0 => SysExEvent::F0,
            0xF7 => SysExEvent::F7,
            _ => SysExEvent::Unknown { status },
        }
    }
}

impl MessageTool for SysExEvent {
    open spec fn encodable(&self) -> bool {
        true
    }

    open spec fn spec_binary(&self) -> Seq<u8> {
        seq![self.spec_status()]
    }

    fn binary(&self) -> (r: Vec<u8>) {
        let mut out: Vec<u8> = Vec::new();
        out.push(self.status_byte());
        assert(out@ =~= self.spec_binary());
        out
    }

    fn len(&self) -> (r: usize) {
        1
    }

    fn status_byte(&self) -> (r: u8) {
        match *self {
            SysExEvent::F0 => 0xf0,
            SysExEvent::F7 => 0xf7,
            SysExEvent::Unknown { status } => status,
        }
    }
}

/// The payload of a system exclusive event as it goes out: an `F0` event
/// leaves a leading 0xF0 of its stored data behind, every other kind sends
/// the data as it stands.
pub open spec fn sysex_payload(event: SysExEvent, data: Seq<u8>) -> Seq<u8> {
    if event == SysExEvent::F0 && data.len() > 0 && data[0] == 0xF0 {
        data.subrange(1, data.len() as int)
    } else {
        data
    }
}

/// One entry of a track, or the boundary between two tracks.
#[derive(Clone, Debug, PartialEq)]
#[allow(inconsistent_fields)]
pub enum Message {
    MetaEvent { delta_time: VLQ, event: MetaEvent, data: Vec<u8> },
    MidiEvent { delta_time: VLQ, event: MidiEvent },
    SysExEvent { delta_time: VLQ, event: SysExEvent, data: Vec<u8> },
    TrackChange,
}

/// A message as a mathematical value: the delta time as a number, the
/// payload as a sequence of bytes.
#[allow(inconsistent_fields)]
pub enum MessageView {
    MetaEvent { delta_time: nat, event: MetaEvent, data: Seq<u8> },
    MidiEvent { delta_time: nat, event: MidiEvent },
    SysExEvent { delta_time: nat, event: SysExEvent, data: Seq<u8> },
    TrackChange,
}

impl MessageView {
    /// Whether the message has a wire form: the delta time and the payload
    /// length fit a variable-length quantity, and so does the event itself.
    pub open spec fn encodable(&self) -> bool {
        match *self {
            MessageView::MetaEvent { delta_time, data, .. } => delta_time <= MAX_VLQ && data.len()
                <= MAX_VLQ,
            MessageView::MidiEvent { delta_time, event } => delta_time <= MAX_VLQ
                && event.encodable(),
            MessageView::SysExEvent { delta_time, data, .. } => delta_time <= MAX_VLQ && data.len()
                <= MAX_VLQ,
            MessageView::TrackChange => true,
        }
    }

    /// The wire form of the message, every status byte written out. A track
    /// boundary stands for the tag that opens the next track chunk.
    pub open spec fn binary(&self) -> Seq<u8> {
        match *self {
            MessageView::MetaEvent { delta_time, event, data } => vlq_bytes(delta_time)
                + event.spec_binary() + vlq_bytes(data.len()) + data,
            MessageView::MidiEvent { delta_time, event } => vlq_bytes(delta_time)
                + event.spec_binary(),
            MessageView::SysExEvent { delta_time, event, data } => vlq_bytes(delta_time)
                + event.spec_binary() + vlq_bytes(sysex_payload(event, data).len())
                + sysex_payload(event, data),
            MessageView::TrackChange => track_tag(),
        }
    }

    /// The length of the wire form.
    pub open spec fn len(&self) -> nat {
        match *self {
            MessageView::MetaEvent { delta_time, event, data } => vlq_len(delta_time) + 2 + vlq_len(
                data.len(),
            ) + data.len(),
            MessageView::MidiEvent { delta_time, event } => vlq_len(delta_time) + 1
                + event.params().len(),
            MessageView::SysExEvent { delta_time, event, data } => vlq_len(delta_time) + 1
                + vlq_len(sysex_payload(event, data).len()) + sysex_payload(event, data).len(),
            MessageView::TrackChange => 4,
        }
    }
}

impl View for Message {
    type V = MessageView;

    open spec fn view(&self) -> MessageView {
        match *self {
            Message::MetaEvent { delta_time, event, data } => MessageView::MetaEvent {
                delta_time: delta_time@,
                event,
                data: data@,
            },
            Message::MidiEvent { delta_time, event } => MessageView::MidiEvent {
                delta_time: delta_time@,
                event,
            },
            Message::SysExEvent { delta_time, event, data } => MessageView::SysExEvent {
                delta_time: delta_time@,
                event,
                data: data@,
            },
            Message::TrackChange => MessageView::TrackChange,
        }
    }
}

/// The messages of a list as mathematical values.
pub open spec fn views(s: Seq<Message>) -> Seq<MessageView> {
    Seq::new(s.len(), |i: int| s[i]@)
}

/// The length that `len` gives is the length of what `binary` gives.
pub proof fn lemma_len_is_binary_len(m: MessageView)
    requires
        m.encodable(),
    ensures
        m.binary().len() == m.len(),
{
    let none = Seq::<u8>::empty();
    match m {
        MessageView::MetaEvent { delta_time, event, data } => {
            lemma_vlq_round_trip(delta_time, none, none);
            lemma_vlq_round_trip(data.len(), none, none);
        },
        MessageView::MidiEvent { delta_time, event } => {
            lemma_vlq_round_trip(delta_time, none, none);
        },
        MessageView::SysExEvent { delta_time, event, data } => {
            lemma_vlq_round_trip(delta_time, none, none);
            lemma_vlq_round_trip(sysex_payload(event, data).len(), none, none);
        },
        MessageView::TrackChange => {},
    }
}

impl Message {
    /// Whether the message has a wire form.
    pub fn is_encodable(&self) -> (r: bool)
        ensures
            r == self@.encodable(),
    {
        match self {
            Message::MetaEvent { delta_time, event, data } => {
                delta_time.value() <= MAX_VLQ && data.len() <= 0x0FFF_FFFF
            },
            Message::MidiEvent { delta_time, event } => {
                let fits: bool = match *event {
                    MidiEvent::PitchBendChange { data, .. } => -8192 <= data && data < 8192,
                    _ => true,
                };
                delta_time.value() <= MAX_VLQ && fits
            },
            Message::SysExEvent { delta_time, event, data } => {
                delta_time.value() <= MAX_VLQ && data.len() <= 0x0FFF_FFFF
            },
            Message::TrackChange => true,
        }
    }

    /// The wire form of the message, its status byte written out.
    pub fn binary(&self) -> (r: Vec<u8>)
        requires
            self@.encodable(),
        ensures
            r@ == self@.binary(),
    {
        match self {
            Message::MetaEvent { delta_time, event, data } => {
                let mut out: Vec<u8> = delta_time.binary();
                let mut head: Vec<u8> = event.binary();
                out.append(&mut head);
                let mut size: Vec<u8> = VLQ::new(data.len() as u32).binary();
                out.append(&mut size);
                push_all(&mut out, data.as_slice(), 0);
                assert(data@.subrange(0, data@.len() as int) =~= data@);
                out
            },
            Message::MidiEvent { delta_time, event } => {
                let mut out: Vec<u8> = delta_time.binary();
                let mut head: Vec<u8> = event.binary();
                out.append(&mut head);
                out
            },
            Message::SysExEvent { delta_time, event, data } => {
                let mut out: Vec<u8> = delta_time.binary();
                let mut head: Vec<u8> = event.binary();
                out.append(&mut head);
                let skip: usize = if *event == SysExEvent::F0 && data.len() > 0 && data[0] == 0xF0 {
                    1
                } else {
                    0
                };
                let mut size: Vec<u8> = VLQ::new((data.len() - skip) as u32).binary();
                out.append(&mut size);
                push_all(&mut out, data.as_slice(), skip);
                assert(data@.subrange(skip as int, data@.len() as int) =~= sysex_payload(
                    *event,
                    data@,
                ));
                out
            },
            Message::TrackChange => {
                let tag = Tag::Track.binary();
                let mut out: Vec<u8> = Vec::new();
                push_all(&mut out, tag.as_slice(), 0);
                assert(out@ =~= track_tag());
                out
            },
        }
    }

    /// The length of the wire form.
    pub fn len(&self) -> (r: usize)
        requires
            self@.encodable(),
        ensures
            r == self@.len(),
            r == self@.binary().len(),
    {
        match self {
            Message::MetaEvent { delta_time, event, data } => {
                delta_time.len() + event.len() + VLQ::new(data.len() as u32).len() + data.len()
            },
            Message::MidiEvent { delta_time, event } => { delta_time.len() + event.len() },
            Message::SysExEvent { delta_time, event, data } => {
                let skip: usize = if *event == SysExEvent::F0 && data.len() > 0 && data[0] == 0xF0 {
                    1
                } else {
                    0
                };
                delta_time.len() + event.len() + VLQ::new((data.len() - skip) as u32).len() + (
                data.len() - skip)
            },
            Message::TrackChange => 4,
        }
    }
}

} // verus!
