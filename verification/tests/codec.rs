use ghakuf::formats::{ReadError, Tag, VLQ};
use ghakuf::messages::{Message, MessageTool, MetaEvent, MidiEvent, MidiEventBuilder, SysExEvent};
use ghakuf::reader::{decode, decode_event, Header, Reader};
use ghakuf::writer::{WriteError, Writer};

fn meta(delta: u32, event: MetaEvent, data: Vec<u8>) -> Message {
    Message::MetaEvent { delta_time: VLQ::new(delta), event, data }
}

fn midi(delta: u32, event: MidiEvent) -> Message {
    Message::MidiEvent { delta_time: VLQ::new(delta), event }
}

fn sysex(delta: u32, event: SysExEvent, data: Vec<u8>) -> Message {
    Message::SysExEvent { delta_time: VLQ::new(delta), event, data }
}

fn image(messages: Vec<Message>, running: bool, time_base: u16) -> Vec<u8> {
    let mut writer = Writer::new();
    writer.running_status(running);
    writer.time_base(time_base);
    for m in messages {
        writer.push(m);
    }
    let mut out = Vec::new();
    assert_eq!(writer.write(&mut out), Ok(()));
    out
}

#[test]
fn vlq_binary_has_exact_bytes() {
    assert_eq!(VLQ::new(0).binary(), vec![0x00]);
    assert_eq!(VLQ::new(0x40).binary(), vec![0x40]);
    assert_eq!(VLQ::new(0x7F).binary(), vec![0x7F]);
    assert_eq!(VLQ::new(0x80).binary(), vec![0x81, 0x00]);
    assert_eq!(VLQ::new(192).binary(), vec![0x81, 0x40]);
    assert_eq!(VLQ::new(0x2000).binary(), vec![0xC0, 0x00]);
    assert_eq!(VLQ::new(0x3FFF).binary(), vec![0xFF, 0x7F]);
    assert_eq!(VLQ::new(0x4000).binary(), vec![0x81, 0x80, 0x00]);
    assert_eq!(VLQ::new(0x1F_FFFF).binary(), vec![0xFF, 0xFF, 0x7F]);
    assert_eq!(VLQ::new(0x20_0000).binary(), vec![0x81, 0x80, 0x80, 0x00]);
    assert_eq!(VLQ::new(0x0800_0000).binary(), vec![0xC0, 0x80, 0x80, 0x00]);
    assert_eq!(VLQ::new(0x0FFF_FFFF).binary(), vec![0xFF, 0xFF, 0xFF, 0x7F]);
}

#[test]
fn vlq_len_counts_the_bytes() {
    let values: [u32; 9] = [0, 0x7F, 0x80, 0x3FFF, 0x4000, 0x1F_FFFF, 0x20_0000, 0x0FFF_FFFE, 0x0FFF_FFFF];
    for v in values {
        let q = VLQ::new(v);
        assert_eq!(q.len(), q.binary().len());
    }
    assert_eq!(VLQ::new(0x7F).len(), 1);
    assert_eq!(VLQ::new(0x80).len(), 2);
    assert_eq!(VLQ::new(0x4000).len(), 3);
    assert_eq!(VLQ::new(0x0FFF_FFFF).len(), 4);
}

#[test]
fn vlq_round_trip_on_many_values() {
    let mut v: u32 = 0;
    while v <= 0x0FFF_FFFF {
        let q = VLQ::new(v);
        let mut bytes = vec![0xAA, 0xBB];
        bytes.extend_from_slice(&q.binary());
        bytes.push(0x55);
        assert_eq!(VLQ::decode(&bytes, 2), Ok((q, q.len())));
        v = v * 3 + 1;
    }
    for v in [0x7Fu32, 0x80, 0x3FFF, 0x4000, 0x1F_FFFF, 0x20_0000, 0x0FFF_FFFF] {
        let q = VLQ::new(v);
        assert_eq!(VLQ::decode(&q.binary(), 0), Ok((q, q.len())));
        assert_eq!(q.value(), v);
    }
}

#[test]
fn vlq_decode_reports_truncation() {
    assert_eq!(VLQ::decode(&[], 0), Err(ReadError::TruncatedInput));
    assert_eq!(VLQ::decode(&[0x81], 0), Err(ReadError::TruncatedInput));
    assert_eq!(VLQ::decode(&[0x81, 0x80, 0x80], 0), Err(ReadError::TruncatedInput));
    assert_eq!(VLQ::decode(&[0x00], 1), Err(ReadError::TruncatedInput));
    assert_eq!(VLQ::decode(&[0x00], 7), Err(ReadError::TruncatedInput));
}

#[test]
fn vlq_decode_refuses_a_fifth_byte() {
    assert_eq!(VLQ::decode(&[0x81, 0x80, 0x80, 0x80, 0x00], 0), Err(ReadError::UnsupportedValue));
    assert_eq!(VLQ::decode(&[0xFF, 0xFF, 0xFF, 0xFF], 0), Err(ReadError::UnsupportedValue));
}

#[test]
fn vlq_decode_takes_padded_forms() {
    assert_eq!(VLQ::decode(&[0x80, 0x05], 0), Ok((VLQ::new(5), 2)));
}

#[test]
fn vlq_checked_new_guards_the_range() {
    assert_eq!(VLQ::checked_new(0x0FFF_FFFF), Some(VLQ::new(0x0FFF_FFFF)));
    assert_eq!(VLQ::checked_new(0x1000_0000), None);
    assert_eq!(VLQ::checked_new(u32::MAX), None);
    assert_eq!(VLQ::checked_new(0), Some(VLQ::new(0)));
}

#[test]
fn tags_are_ascii_markers() {
    assert_eq!(&Tag::Header.binary(), b"MThd");
    assert_eq!(&Tag::Track.binary(), b"MTrk");
    assert!(Tag::Track.matches_at(b"xxMTrk", 2));
    assert!(!Tag::Track.matches_at(b"xxMThd", 2));
    assert!(Tag::Header.matches_at(b"MThd", 0));
}

#[test]
fn meta_event_codes_go_both_ways() {
    let named: [(u8, MetaEvent); 15] = [
        (0x00, MetaEvent::SequenceNumber),
        (0x01, MetaEvent::TextEvent),
        (0x02, MetaEvent::CopyrightNotice),
        (0x03, MetaEvent::SequenceOrTrackName),
        (0x04, MetaEvent::InstrumentName),
        (0x05, MetaEvent::Lyric),
        (0x06, MetaEvent::Marker),
        (0x07, MetaEvent::CuePoint),
        (0x20, MetaEvent::MIDIChannelPrefix),
        (0x2F, MetaEvent::EndOfTrack),
        (0x51, MetaEvent::SetTempo),
        (0x54, MetaEvent::SMTPEOffset),
        (0x58, MetaEvent::TimeSignature),
        (0x59, MetaEvent::KeySignature),
        (0x7F, MetaEvent::SequencerSpecificMetaEvent),
    ];
    for (code, event) in named {
        assert_eq!(MetaEvent::new(code), event);
        assert_eq!(event.binary(), vec![0xFF, code]);
        assert_eq!(event.event_type(), code);
        assert_eq!(event.len(), 2);
        assert_eq!(event.status_byte(), 0xFF);
    }
    assert_eq!(MetaEvent::new(0x08), MetaEvent::Unknown { event_type: 0x08 });
    assert_eq!(MetaEvent::Unknown { event_type: 0x60 }.binary(), vec![0xFF, 0x60]);
    for code in 0u8..=255 {
        assert_eq!(MetaEvent::new(code).event_type(), code);
    }
}

#[test]
fn sysex_kinds_go_both_ways() {
    assert_eq!(SysExEvent::new(0xF0), SysExEvent::F0);
    assert_eq!(SysExEvent::new(0xF7), SysExEvent::F7);
    assert_eq!(SysExEvent::new(0xF4), SysExEvent::Unknown { status: 0xF4 });
    assert_eq!(SysExEvent::F0.binary(), vec![0xF0]);
    assert_eq!(SysExEvent::F7.binary(), vec![0xF7]);
    assert_eq!(SysExEvent::Unknown { status: 0xF4 }.binary(), vec![0xF4]);
    assert_eq!(SysExEvent::F0.len(), 1);
    assert_eq!(SysExEvent::F7.status_byte(), 0xF7);
}

#[test]
fn midi_event_binary_per_kind() {
    assert_eq!(MidiEvent::NoteOff { ch: 1, note: 60, velocity: 0 }.binary(), vec![0x81, 60, 0]);
    assert_eq!(MidiEvent::NoteOn { ch: 0, note: 0x3C, velocity: 0x7F }.binary(), vec![0x90, 0x3C, 0x7F]);
    assert_eq!(
        MidiEvent::PolyphonicKeyPressure { ch: 15, note: 1, velocity: 2 }.binary(),
        vec![0xAF, 1, 2]
    );
    assert_eq!(MidiEvent::ControlChange { ch: 2, control: 7, data: 100 }.binary(), vec![0xB2, 7, 100]);
    assert_eq!(MidiEvent::ProgramChange { ch: 3, program: 9 }.binary(), vec![0xC3, 9]);
    assert_eq!(MidiEvent::ChannelPressure { ch: 4, pressure: 11 }.binary(), vec![0xD4, 11]);
    assert_eq!(MidiEvent::PitchBendChange { ch: 5, data: 0 }.binary(), vec![0xE5, 0x00, 0x40]);
    assert_eq!(MidiEvent::PitchBendChange { ch: 5, data: -8192 }.binary(), vec![0xE5, 0x00, 0x00]);
    assert_eq!(MidiEvent::PitchBendChange { ch: 5, data: 8191 }.binary(), vec![0xE5, 0x7F, 0x7F]);
    assert_eq!(MidiEvent::PitchBendChange { ch: 5, data: 1 }.binary(), vec![0xE5, 0x01, 0x40]);
    assert_eq!(MidiEvent::Unknown { ch: 6 }.binary(), vec![0x86]);
    assert_eq!(MidiEvent::NoteOn { ch: 0x1F, note: 1, velocity: 1 }.status_byte(), 0x9F);
}

#[test]
fn midi_event_len_per_kind() {
    let events = [
        MidiEvent::NoteOff { ch: 0, note: 1, velocity: 2 },
        MidiEvent::NoteOn { ch: 0, note: 1, velocity: 2 },
        MidiEvent::PolyphonicKeyPressure { ch: 0, note: 1, velocity: 2 },
        MidiEvent::ControlChange { ch: 0, control: 1, data: 2 },
        MidiEvent::ProgramChange { ch: 0, program: 1 },
        MidiEvent::ChannelPressure { ch: 0, pressure: 1 },
        MidiEvent::PitchBendChange { ch: 0, data: -5 },
        MidiEvent::Unknown { ch: 0 },
    ];
    let lens = [3usize, 3, 3, 3, 2, 2, 3, 1];
    for (e, l) in events.iter().zip(lens.iter()) {
        assert_eq!(e.len(), *l);
        assert_eq!(e.binary().len(), *l);
        assert_eq!(e.binary()[0], e.status_byte());
    }
}

#[test]
fn builder_counts_down_the_parameters() {
    let expected: [(u8, u8); 10] = [
        (0x80, 2),
        (0x9F, 2),
        (0xA0, 2),
        (0xB3, 2),
        (0xC0, 1),
        (0xD1, 1),
        (0xE0, 2),
        (0xF1, 0),
        (0x7F, 0),
        (0x00, 0),
    ];
    for (status, n) in expected {
        assert_eq!(MidiEventBuilder::new(status).shortage(), n);
    }
    let mut b = MidiEventBuilder::new(0x93);
    assert_eq!(b.shortage(), 2);
    b.push(0x3C);
    assert_eq!(b.shortage(), 1);
    b.push(0x7F);
    assert_eq!(b.shortage(), 0);
    b.push(0x11);
    assert_eq!(b.shortage(), 0);
    assert_eq!(b.build(), MidiEvent::NoteOn { ch: 3, note: 0x3C, velocity: 0x7F });
}

#[test]
fn builder_builds_every_kind() {
    let build = |status: u8, params: &[u8]| {
        let mut b = MidiEventBuilder::new(status);
        for p in params {
            b.push(*p);
        }
        assert_eq!(b.shortage(), 0);
        b.build()
    };
    assert_eq!(build(0x81, &[1, 2]), MidiEvent::NoteOff { ch: 1, note: 1, velocity: 2 });
    assert_eq!(build(0xA2, &[3, 4]), MidiEvent::PolyphonicKeyPressure { ch: 2, note: 3, velocity: 4 });
    assert_eq!(build(0xB3, &[5, 6]), MidiEvent::ControlChange { ch: 3, control: 5, data: 6 });
    assert_eq!(build(0xC4, &[7]), MidiEvent::ProgramChange { ch: 4, program: 7 });
    assert_eq!(build(0xD5, &[8]), MidiEvent::ChannelPressure { ch: 5, pressure: 8 });
    assert_eq!(build(0xE6, &[0x00, 0x40]), MidiEvent::PitchBendChange { ch: 6, data: 0 });
    assert_eq!(build(0xE6, &[0x7F, 0x7F]), MidiEvent::PitchBendChange { ch: 6, data: 8191 });
    assert_eq!(build(0xE6, &[0x00, 0x00]), MidiEvent::PitchBendChange { ch: 6, data: -8192 });
    assert_eq!(build(0xE6, &[0x01, 0x00]), MidiEvent::PitchBendChange { ch: 6, data: -8191 });
    assert_eq!(build(0xF2, &[]), MidiEvent::Unknown { ch: 2 });
}

#[test]
fn pitch_bend_wire_values_survive() {
    for w in 0u16..16384 {
        let data = w as i16 - 8192;
        let bytes = MidiEvent::PitchBendChange { ch: 9, data }.binary();
        assert_eq!(bytes.len(), 3);
        assert_eq!(bytes[0], 0xE9);
        assert_eq!(bytes[1] as u16 | ((bytes[2] as u16) << 7), w);
        let mut b = MidiEventBuilder::new(bytes[0]);
        b.push(bytes[1]);
        b.push(bytes[2]);
        let back = b.build();
        assert_eq!(back, MidiEvent::PitchBendChange { ch: 9, data });
        assert_eq!(back.binary(), bytes);
    }
}

#[test]
fn message_binary_and_len_agree() {
    let messages = vec![
        meta(0, MetaEvent::SetTempo, vec![0x08, 0xF9, 0xCB]),
        meta(300, MetaEvent::TextEvent, vec![b'a'; 200]),
        meta(0, MetaEvent::EndOfTrack, vec![]),
        midi(192, MidiEvent::NoteOn { ch: 0, note: 0x40, velocity: 0 }),
        midi(0, MidiEvent::ProgramChange { ch: 1, program: 5 }),
        midi(70000, MidiEvent::PitchBendChange { ch: 1, data: 100 }),
        sysex(1, SysExEvent::F0, vec![0xF0, 1, 2, 3]),
        sysex(1, SysExEvent::F0, vec![1, 2, 3]),
        sysex(1, SysExEvent::F0, vec![]),
        sysex(1, SysExEvent::F7, vec![0xF0, 1, 2, 3]),
        sysex(1, SysExEvent::Unknown { status: 0xF4 }, vec![9]),
        Message::TrackChange,
    ];
    for m in &messages {
        assert_eq!(m.len(), m.binary().len());
    }
    assert_eq!(messages[0].binary(), vec![0x00, 0xFF, 0x51, 0x03, 0x08, 0xF9, 0xCB]);
    assert_eq!(messages[2].binary(), vec![0x00, 0xFF, 0x2F, 0x00]);
    assert_eq!(messages[3].binary(), vec![0x81, 0x40, 0x90, 0x40, 0x00]);
    assert_eq!(messages[1].len(), 2 + 2 + 2 + 200);
    assert_eq!(messages[11].binary(), b"MTrk".to_vec());
    assert_eq!(messages[11].len(), 4);
}

#[test]
fn sysex_f0_drops_its_leading_byte() {
    let m = sysex(0, SysExEvent::F0, vec![0xF0, 1, 2, 3]);
    assert_eq!(m.binary(), vec![0x00, 0xF0, 0x03, 1, 2, 3]);
    let (back, next, status) = decode_event(&m.binary(), 0, None).unwrap();
    assert_eq!(back, sysex(0, SysExEvent::F0, vec![1, 2, 3]));
    assert_eq!(next, 6);
    assert_eq!(status, None);
    let file = image(vec![sysex(0, SysExEvent::F0, vec![0xF0, 1, 2, 3])], false, 480);
    let read = decode(&file);
    assert_eq!(read.error, None);
    assert_eq!(read.messages, vec![sysex(0, SysExEvent::F0, vec![1, 2, 3])]);
}

#[test]
fn sysex_other_payloads_stay_whole() {
    assert_eq!(
        sysex(0, SysExEvent::F7, vec![0xF0, 1, 2, 3]).binary(),
        vec![0x00, 0xF7, 0x04, 0xF0, 1, 2, 3]
    );
    assert_eq!(sysex(0, SysExEvent::F0, vec![1, 2, 3]).binary(), vec![0x00, 0xF0, 0x03, 1, 2, 3]);
    assert_eq!(sysex(0, SysExEvent::F0, vec![]).binary(), vec![0x00, 0xF0, 0x00]);
    assert_eq!(
        sysex(5, SysExEvent::Unknown { status: 0xF3 }, vec![0xF0]).binary(),
        vec![0x05, 0xF3, 0x01, 0xF0]
    );
}

fn sample() -> Vec<Message> {
    let tempo: u32 = 60 * 1000000 / 102;
    vec![
        meta(0, MetaEvent::SetTempo, vec![(tempo >> 16) as u8, (tempo >> 8) as u8, tempo as u8]),
        meta(0, MetaEvent::EndOfTrack, Vec::new()),
        Message::TrackChange,
        midi(0, MidiEvent::NoteOn { ch: 0, note: 0x3c, velocity: 0x7f }),
        midi(192, MidiEvent::NoteOn { ch: 0, note: 0x40, velocity: 0 }),
        meta(0, MetaEvent::EndOfTrack, Vec::new()),
    ]
}

#[test]
fn sample_file_has_exact_bytes() {
    let file = image(sample(), true, 480);
    let expected: Vec<u8> = vec![
        b'M', b'T', b'h', b'd', 0, 0, 0, 6, 0, 1, 0, 2, 0x01, 0xE0, //
        b'M', b'T', b'r', b'k', 0, 0, 0, 11, //
        0x00, 0xFF, 0x51, 0x03, 0x08, 0xF9, 0xCB, //
        0x00, 0xFF, 0x2F, 0x00, //
        b'M', b'T', b'r', b'k', 0, 0, 0, 12, //
        0x00, 0x90, 0x3C, 0x7F, //
        0x81, 0x40, 0x40, 0x00, //
        0x00, 0xFF, 0x2F, 0x00,
    ];
    assert_eq!(file, expected);
}

#[test]
fn sample_file_reads_back() {
    for running in [false, true] {
        let file = image(sample(), running, 480);
        let read = Reader::new(file).read();
        assert_eq!(read.error, None);
        assert_eq!(read.header, Some(Header { format: 1, track_count: 2, time_base: 480 }));
        assert_eq!(read.messages, sample());
        let changes = read.messages.iter().filter(|m| **m == Message::TrackChange).count();
        assert_eq!(changes, 1);
        match &read.messages[0] {
            Message::MetaEvent { event, data, .. } => {
                assert_eq!(*event, MetaEvent::SetTempo);
                assert_eq!(*data, vec![0x08, 0xF9, 0xCB]);
            }
            other => panic!("unexpected first message {:?}", other),
        }
        match (&read.messages[3], &read.messages[4]) {
            (
                Message::MidiEvent { delta_time: first, event: MidiEvent::NoteOn { .. } },
                Message::MidiEvent { delta_time: second, event: MidiEvent::NoteOn { .. } },
            ) => {
                assert_eq!(first.value(), 0);
                assert_eq!(second.value(), 192);
            }
            other => panic!("unexpected note messages {:?}", other),
        }
    }
}

#[test]
fn running_status_saves_one_byte_per_repeat() {
    let notes = vec![
        midi(0, MidiEvent::NoteOn { ch: 3, note: 60, velocity: 100 }),
        midi(10, MidiEvent::NoteOn { ch: 3, note: 64, velocity: 90 }),
    ];
    let plain = image(notes.clone(), false, 96);
    let short = image(notes.clone(), true, 96);
    assert_eq!(plain.len(), short.len() + 1);
    assert_eq!(&plain[22..], &[0x00, 0x93, 60, 100, 10, 0x93, 64, 90]);
    assert_eq!(&short[22..], &[0x00, 0x93, 60, 100, 10, 64, 90]);
    assert_eq!(&plain[18..22], &[0, 0, 0, 8]);
    assert_eq!(&short[18..22], &[0, 0, 0, 7]);
    let a = decode(&plain);
    let b = decode(&short);
    assert_eq!(a.error, None);
    assert_eq!(b.error, None);
    assert_eq!(a.messages, notes);
    assert_eq!(b.messages, notes);
}

#[test]
fn running_status_is_reset_by_other_events() {
    let messages = vec![
        midi(0, MidiEvent::NoteOn { ch: 3, note: 60, velocity: 100 }),
        meta(0, MetaEvent::Marker, vec![b'x']),
        midi(0, MidiEvent::NoteOn { ch: 3, note: 61, velocity: 100 }),
        midi(0, MidiEvent::NoteOn { ch: 4, note: 62, velocity: 100 }),
        midi(0, MidiEvent::NoteOff { ch: 4, note: 62, velocity: 0 }),
        midi(0, MidiEvent::NoteOff { ch: 4, note: 61, velocity: 0 }),
        sysex(0, SysExEvent::F7, vec![1]),
        midi(0, MidiEvent::NoteOff { ch: 4, note: 60, velocity: 0 }),
        Message::TrackChange,
        midi(0, MidiEvent::NoteOff { ch: 4, note: 60, velocity: 0 }),
    ];
    let short = image(messages.clone(), true, 96);
    let expected_first: Vec<u8> = vec![
        0x00, 0x93, 60, 100, //
        0x00, 0xFF, 0x06, 0x01, b'x', //
        0x00, 0x93, 61, 100, //
        0x00, 0x94, 62, 100, //
        0x00, 0x84, 62, 0, //
        0x00, 61, 0, //
        0x00, 0xF7, 0x01, 1, //
        0x00, 0x84, 60, 0,
    ];
    assert_eq!(&short[22..22 + expected_first.len()], &expected_first[..]);
    assert_eq!(&short[22 + expected_first.len()..], &[b'M', b'T', b'r', b'k', 0, 0, 0, 4, 0x00, 0x84, 60, 0]);
    let read = decode(&short);
    assert_eq!(read.error, None);
    assert_eq!(read.messages, messages);
}

#[test]
fn track_changes_are_one_fewer_than_tracks() {
    for tracks in 1usize..6 {
        let mut messages = Vec::new();
        for t in 0..tracks {
            if t > 0 {
                messages.push(Message::TrackChange);
            }
            messages.push(midi(t as u32, MidiEvent::ProgramChange { ch: t as u8, program: 1 }));
            messages.push(meta(0, MetaEvent::EndOfTrack, vec![]));
        }
        let file = image(messages.clone(), false, 480);
        let read = decode(&file);
        assert_eq!(read.error, None);
        assert_eq!(read.header.unwrap().track_count as usize, tracks);
        let changes = read.messages.iter().filter(|m| **m == Message::TrackChange).count();
        assert_eq!(changes, tracks - 1);
        assert_eq!(read.messages, messages);
    }
}

#[test]
fn empty_writer_gives_one_empty_track() {
    let file = image(vec![], false, 480);
    assert_eq!(
        file,
        vec![b'M', b'T', b'h', b'd', 0, 0, 0, 6, 0, 1, 0, 1, 0x01, 0xE0, b'M', b'T', b'r', b'k', 0, 0, 0, 0]
    );
    let read = decode(&file);
    assert_eq!(read.error, None);
    assert!(read.messages.is_empty());
    assert_eq!(read.header, Some(Header { format: 1, track_count: 1, time_base: 480 }));
}

#[test]
fn writer_appends_to_the_destination() {
    let mut writer = Writer::new();
    writer.time_base(0x1234);
    writer.push(meta(0, MetaEvent::EndOfTrack, vec![]));
    let mut out = vec![7u8, 8, 9];
    assert_eq!(writer.write(&mut out), Ok(()));
    assert_eq!(&out[..3], &[7, 8, 9]);
    assert_eq!(&out[3..7], b"MThd");
    assert_eq!(&out[15..17], &[0x12, 0x34]);
    assert_eq!(out.len(), 3 + 14 + 8 + 4);
}

#[test]
fn writer_refuses_too_many_tracks() {
    let mut writer = Writer::new();
    for _ in 0..0xFFFF {
        writer.push(Message::TrackChange);
    }
    let mut out = vec![1u8];
    assert_eq!(writer.write(&mut out), Err(WriteError::TooManyTracks));
    assert_eq!(out, vec![1u8]);
    let mut writer = Writer::new();
    for _ in 0..0xFFFE {
        writer.push(Message::TrackChange);
    }
    let mut out = Vec::new();
    assert_eq!(writer.write(&mut out), Ok(()));
    assert_eq!(&out[10..12], &[0xFF, 0xFF]);
    assert_eq!(out.len(), 14 + 8 * 0xFFFF);
}

#[test]
fn reader_reports_header_faults() {
    assert_eq!(decode(&[]).error, Some(ReadError::TruncatedInput));
    assert_eq!(decode(b"MTh").error, Some(ReadError::TruncatedInput));
    assert_eq!(decode(b"MTrk\0\0\0\x06\0\x01\0\x01\x01\xe0").error, Some(ReadError::UnexpectedTag));
    assert_eq!(decode(b"MThd\0\0").error, Some(ReadError::TruncatedInput));
    assert_eq!(decode(b"MThd\0\0\0\x07\0\x01\0\x01\x01\xe0\0").error, Some(ReadError::InvalidHeaderLength));
    assert_eq!(decode(b"MThd\0\0\0\x06\0\x01\0\x01\x01").error, Some(ReadError::TruncatedInput));
    let r = decode(b"MThd\0\0\0\x07\0\x01\0\x01\x01\xe0\0");
    assert_eq!(r.header, None);
    assert!(r.messages.is_empty());
}

#[test]
fn reader_reports_track_faults() {
    let head = b"MThd\0\0\0\x06\0\x01\0\x02\x01\xe0".to_vec();
    let with = |tail: &[u8]| {
        let mut v = head.clone();
        v.extend_from_slice(tail);
        decode(&v)
    };
    let r = with(b"");
    assert_eq!(r.error, Some(ReadError::TruncatedInput));
    assert_eq!(r.header, Some(Header { format: 1, track_count: 2, time_base: 480 }));
    assert_eq!(with(b"MThd\0\0\0\0").error, Some(ReadError::UnexpectedTag));
    assert_eq!(with(b"MTrk\0\0").error, Some(ReadError::TruncatedInput));
    assert_eq!(with(b"MTrk\0\0\0\x05\0\xff\x2f\0").error, Some(ReadError::TruncatedInput));
    let r = with(b"MTrk\0\0\0\x03\0\xff\x2f\0");
    assert_eq!(r.error, Some(ReadError::LengthMismatch));
    assert!(r.messages.is_empty());
    let r = with(b"MTrk\0\0\0\x04\0\xff\x2f\0");
    assert_eq!(r.error, Some(ReadError::TruncatedInput));
    assert_eq!(r.messages, vec![meta(0, MetaEvent::EndOfTrack, vec![])]);
    let r = with(b"MTrk\0\0\0\x04\0\xff\x2f\0MTrx");
    assert_eq!(r.error, Some(ReadError::UnexpectedTag));
    assert_eq!(r.messages, vec![meta(0, MetaEvent::EndOfTrack, vec![])]);
    let r = with(b"MTrk\0\0\0\x04\0\xff\x2f\0MTrk\0\0\0\x03\0\x40\x40");
    assert_eq!(r.error, Some(ReadError::MissingStatus));
    assert_eq!(r.messages, vec![meta(0, MetaEvent::EndOfTrack, vec![]), Message::TrackChange]);
    let r = with(b"MTrk\0\0\0\x06\x81\x80\x80\x80\x00\x00");
    assert_eq!(r.error, Some(ReadError::UnsupportedValue));
    let r = with(b"MTrk\0\0\0\x04\0\xff\x2f\0MTrk\0\0\0\0trailing");
    assert_eq!(r.error, None);
    assert_eq!(r.messages, vec![meta(0, MetaEvent::EndOfTrack, vec![]), Message::TrackChange]);
}

#[test]
fn running_status_does_not_cross_tracks() {
    let mut file = b"MThd\0\0\0\x06\0\x01\0\x02\0\x60".to_vec();
    file.extend_from_slice(b"MTrk\0\0\0\x04\0\x90\x3c\x40");
    file.extend_from_slice(b"MTrk\0\0\0\x03\0\x3c\x00");
    let r = decode(&file);
    assert_eq!(r.error, Some(ReadError::MissingStatus));
    assert_eq!(
        r.messages,
        vec![midi(0, MidiEvent::NoteOn { ch: 0, note: 0x3c, velocity: 0x40 }), Message::TrackChange]
    );
}

#[test]
fn decode_event_takes_each_family() {
    let bytes = [0x81, 0x40, 0x90, 0x40, 0x00, 0x05, 0x41, 0x01];
    let (m, next, st) = decode_event(&bytes, 0, None).unwrap();
    assert_eq!(m, midi(192, MidiEvent::NoteOn { ch: 0, note: 0x40, velocity: 0 }));
    assert_eq!((next, st), (5, Some(0x90)));
    let (m, next, st) = decode_event(&bytes, 5, st).unwrap();
    assert_eq!(m, midi(5, MidiEvent::NoteOn { ch: 0, note: 0x41, velocity: 1 }));
    assert_eq!((next, st), (8, Some(0x90)));
    assert_eq!(decode_event(&bytes, 5, None), Err(ReadError::MissingStatus));
    assert_eq!(decode_event(&bytes, 8, st), Err(ReadError::TruncatedInput));
    assert_eq!(decode_event(&[0x00], 0, None), Err(ReadError::TruncatedInput));
    assert_eq!(decode_event(&[0x00, 0x90, 0x01], 0, None), Err(ReadError::TruncatedInput));
    assert_eq!(decode_event(&[0x00, 0xFF], 0, None), Err(ReadError::TruncatedInput));
    assert_eq!(decode_event(&[0x00, 0xFF, 0x01, 0x02, 0x41], 0, None), Err(ReadError::TruncatedInput));
    let (m, next, st) = decode_event(&[0x00, 0xFF, 0x01, 0x02, 0x41, 0x42], 0, Some(0x90)).unwrap();
    assert_eq!(m, meta(0, MetaEvent::TextEvent, vec![0x41, 0x42]));
    assert_eq!((next, st), (6, None));
    let (m, next, st) = decode_event(&[0x00, 0xF7, 0x01, 0x99], 0, None).unwrap();
    assert_eq!(m, sysex(0, SysExEvent::F7, vec![0x99]));
    assert_eq!((next, st), (4, None));
    let (m, next, st) = decode_event(&[0x00, 0xF1, 0x00], 0, None).unwrap();
    assert_eq!(m, midi(0, MidiEvent::Unknown { ch: 1 }));
    assert_eq!((next, st), (2, Some(0xF1)));
    let (m, next, st) = decode_event(&[0x00, 0x22, 0x00], 0, Some(0xF1)).unwrap();
    assert_eq!(m, midi(0, MidiEvent::Unknown { ch: 1 }));
    assert_eq!((next, st), (2, Some(0xF1)));
    let (m, next, _) = decode_event(&[0x00, 0xC5, 0x07], 0, None).unwrap();
    assert_eq!(m, midi(0, MidiEvent::ProgramChange { ch: 5, program: 7 }));
    assert_eq!(next, 3);
}

#[test]
fn every_kind_of_message_survives_a_file() {
    let messages = vec![
        meta(0, MetaEvent::SequenceOrTrackName, b"lead".to_vec()),
        meta(0, MetaEvent::Unknown { event_type: 0x0A }, vec![1, 2, 3]),
        midi(1, MidiEvent::NoteOn { ch: 2, note: 60, velocity: 127 }),
        midi(0x3FFF, MidiEvent::PolyphonicKeyPressure { ch: 2, note: 60, velocity: 1 }),
        midi(0x4000, MidiEvent::ControlChange { ch: 15, control: 7, data: 127 }),
        midi(0x0FFF_FFFF, MidiEvent::ProgramChange { ch: 0, program: 127 }),
        midi(0, MidiEvent::ChannelPressure { ch: 0, pressure: 0 }),
        midi(0, MidiEvent::PitchBendChange { ch: 7, data: -1234 }),
        midi(0, MidiEvent::PitchBendChange { ch: 7, data: 4321 }),
        midi(2, MidiEvent::NoteOff { ch: 2, note: 60, velocity: 0 }),
        sysex(3, SysExEvent::F0, vec![0x43, 0x12, 0x00, 0xF7]),
        sysex(3, SysExEvent::F7, vec![0xF0, 0x43]),
        meta(0, MetaEvent::TextEvent, vec![0x55; 300]),
        meta(0, MetaEvent::EndOfTrack, vec![]),
    ];
    for running in [false, true] {
        let file = image(messages.clone(), running, 960);
        let read = decode(&file);
        assert_eq!(read.error, None);
        assert_eq!(read.header, Some(Header { format: 1, track_count: 1, time_base: 960 }));
        assert_eq!(read.messages, messages);
    }
}

#[test]
fn encodable_messages_are_told_apart() {
    assert!(midi(0, MidiEvent::PitchBendChange { ch: 0, data: 8191 }).is_encodable());
    assert!(midi(0, MidiEvent::PitchBendChange { ch: 0, data: -8192 }).is_encodable());
    assert!(!midi(0, MidiEvent::PitchBendChange { ch: 0, data: 8192 }).is_encodable());
    assert!(!midi(0, MidiEvent::PitchBendChange { ch: 0, data: -8193 }).is_encodable());
    assert!(midi(0x0FFF_FFFF, MidiEvent::NoteOn { ch: 0, note: 200, velocity: 0 }).is_encodable());
    let wide = Message::MidiEvent {
        delta_time: VLQ { value: 0x1000_0000 },
        event: MidiEvent::NoteOn { ch: 0, note: 1, velocity: 0 },
    };
    assert!(!wide.is_encodable());
    assert!(Message::TrackChange.is_encodable());
    assert!(meta(0, MetaEvent::Lyric, vec![1, 2]).is_encodable());
    assert!(sysex(0, SysExEvent::F0, vec![]).is_encodable());
}

#[test]
fn read_errors_fall_in_two_classes() {
    assert!(ReadError::UnexpectedTag.is_format_error());
    assert!(ReadError::InvalidHeaderLength.is_format_error());
    assert!(ReadError::LengthMismatch.is_format_error());
    assert!(ReadError::MissingStatus.is_format_error());
    assert!(!ReadError::TruncatedInput.is_format_error());
    assert!(!ReadError::UnsupportedValue.is_format_error());
    assert!(!ReadError::UnsupportedFormat.is_format_error());
}

#[test]
fn track_length_is_the_sum_of_message_lengths() {
    let messages = vec![
        meta(0, MetaEvent::SequenceOrTrackName, b"lead".to_vec()),
        midi(200, MidiEvent::NoteOn { ch: 2, note: 60, velocity: 127 }),
        midi(0, MidiEvent::NoteOn { ch: 2, note: 62, velocity: 127 }),
        sysex(3, SysExEvent::F0, vec![0xF0, 0x43, 0xF7]),
        meta(0, MetaEvent::EndOfTrack, vec![]),
    ];
    let sum: usize = messages.iter().map(|m| m.len()).sum();
    assert_eq!(sum, 8 + 5 + 4 + 5 + 4);
    let file = image(messages.clone(), false, 480);
    assert_eq!(&file[18..22], &[0, 0, 0, sum as u8]);
    assert_eq!(file.len(), 22 + sum);
    let mut body = Vec::new();
    for m in &messages {
        body.extend_from_slice(&m.binary());
    }
    assert_eq!(&file[22..], &body[..]);
}
