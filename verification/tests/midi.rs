use synthrs::errors::{IoErrorKind, ParseErrorKind, SynthrsError};
use synthrs::midi::{
    find_max_time, find_tempo, find_track_tempo, read_midi, read_midi_header, read_midi_track,
    DataLength, EventIterator, EventType, MetaEventType, MidiEvent, MidiSong, MidiTrack,
    SystemEventType, DEFAULT_TEMPO,
};

fn eof<T>() -> Result<T, SynthrsError> {
    Err(SynthrsError::Io(IoErrorKind::UnexpectedEof))
}

fn parse<T>(kind: ParseErrorKind) -> Result<T, SynthrsError> {
    Err(SynthrsError::Parse(kind))
}

fn header(tracks: u16, division: u16) -> Vec<u8> {
    let mut bytes = b"MThd".to_vec();
    bytes.extend([0, 0, 0, 6, 0, 1]);
    bytes.extend(tracks.to_be_bytes());
    bytes.extend(division.to_be_bytes());
    bytes
}

fn chunk(events: &[u8]) -> Vec<u8> {
    let mut bytes = b"MTrk".to_vec();
    bytes.extend((events.len() as u32).to_be_bytes());
    bytes.extend(events);
    bytes
}

const END: [u8; 4] = [0x00, 0xff, 0x2f, 0x00];

fn file(division: u16, tracks: &[Vec<u8>]) -> Vec<u8> {
    let mut bytes = header(tracks.len() as u16, division);
    for events in tracks {
        let mut body = events.clone();
        body.extend(END);
        bytes.extend(chunk(&body));
    }
    bytes
}

fn channel_event(kind: EventType, time: usize, channel: u8, a: usize, b: Option<usize>) -> MidiEvent {
    MidiEvent {
        event_type: kind,
        system_event_type: None,
        meta_event_type: None,
        time,
        channel,
        value1: a,
        value2: b,
    }
}

fn tempo_event(time: usize, tempo: usize) -> MidiEvent {
    MidiEvent {
        event_type: EventType::System,
        system_event_type: Some(SystemEventType::SystemResetOrMeta),
        meta_event_type: Some(MetaEventType::TempoSetting),
        time,
        channel: 0xf,
        value1: tempo,
        value2: None,
    }
}

/// A metadata track and a track with a program change, a note-on and, 960
/// ticks later, its note-off.
fn two_track_file() -> Vec<u8> {
    let meta = vec![
        0x00, 0xff, 0x58, 0x04, 0x04, 0x02, 0x18, 0x08, // time signature
        0x00, 0xff, 0x51, 0x03, 0x07, 0xa1, 0x20, // tempo 500 000
    ];
    let notes = vec![
        0x00, 0xc0, 0x00, // program change
        0x00, 0x90, 0x39, 0x40, // note on 57, velocity 64
        0x87, 0x40, 0x80, 0x39, 0x00, // 960 ticks on: note off 57
    ];
    file(480, &[meta, notes])
}

/// One track that leans on running status and sets 160 beats per minute.
fn running_status_file() -> Vec<u8> {
    let events = vec![
        0x00, 0xff, 0x51, 0x03, 0x05, 0xb8, 0xd8, // tempo 375 000
        0x00, 0x90, 0x3c, 0x40, // note on 60
        0x83, 0x60, 0x3c, 0x00, // +480 running: note on 60, velocity 0
        0x00, 0x3e, 0x40, // running: note on 62
        0x83, 0x60, 0x3e, 0x00, // +480 running
        0xa4, 0x48, 0x40, 0x40, // +4680 running: note on 64
        0x00, 0x40, 0x00, // running
    ];
    file(480, &[events])
}

#[test]
fn midi_it_parses_a_midi_file() {
    let song = read_midi(&two_track_file()).ok().expect("failed");

    assert_eq!(song.tracks.len(), 2); // metadata track included
    let ref messages = song.tracks[1].events;
    assert_eq!(messages.len(), 3);

    // ProgramChange
    assert_eq!(messages[0].event_type, EventType::ProgramChange);
    assert_eq!(messages[0].time, 0);
    assert_eq!(messages[0].channel, 0);
    assert_eq!(messages[0].value1, 0);
    assert_eq!(messages[0].value2, None);

    // NoteOn
    assert_eq!(messages[1].event_type, EventType::NoteOn);
    assert_eq!(messages[1].time, 0);
    assert_eq!(messages[1].channel, 0);
    assert_eq!(messages[1].value1, 57);
    assert_eq!(messages[1].value2, Some(64));

    // NoteOff
    assert_eq!(messages[2].event_type, EventType::NoteOff);
    assert_eq!(messages[2].time, 960);
    assert_eq!(messages[2].channel, 0);
    assert_eq!(messages[2].value1, 57);
    assert_eq!(messages[2].value2, Some(0));

    assert_eq!(song.max_time, 960);
}

#[test]
fn two_track_file_decodes_to_the_whole_song() {
    let song = read_midi(&two_track_file()).unwrap();
    let expected = MidiSong {
        max_time: 960,
        time_unit: 480,
        tracks: vec![
            MidiTrack { events: vec![tempo_event(0, 500_000)], max_time: 0 },
            MidiTrack {
                events: vec![
                    channel_event(EventType::ProgramChange, 0, 0, 0, None),
                    channel_event(EventType::NoteOn, 0, 0, 57, Some(64)),
                    channel_event(EventType::NoteOff, 960, 0, 57, Some(0)),
                ],
                max_time: 960,
            },
        ],
        track_count: 2,
        tempo: 500_000,
    };
    assert_eq!(song, expected);
}

#[test]
fn midi_it_parses_a_midi_file_with_multiple_tracks() {
    let a = vec![0x00, 0x90, 0x3c, 0x40, 0x10, 0x80, 0x3c, 0x00];
    let b = vec![0x00, 0x91, 0x40, 0x40, 0x20, 0x81, 0x40, 0x00];
    let song = read_midi(&file(96, &[vec![], a, b])).ok().expect("failed");
    assert_eq!(song.tracks.len(), 3);
    assert_eq!(song.track_count, 3);
    assert_eq!(song.tracks[0].events.len(), 0);
    assert_eq!(song.tracks[1].max_time, 0x10);
    assert_eq!(song.tracks[2].max_time, 0x20);
    assert_eq!(song.tracks[2].events[0].channel, 1);
    assert_eq!(song.max_time, 0x20);
}

#[test]
fn midi_it_parses_a_midi_file_with_running_status() {
    let song = read_midi(&running_status_file()).ok().expect("failed");
    assert_eq!(song.tracks.len(), 1);
    assert_eq!(song.max_time, 5640);
    let events = &song.tracks[0].events;
    assert_eq!(events.len(), 7);
    assert_eq!(events[0], tempo_event(0, 375_000));
    assert_eq!(events[1], channel_event(EventType::NoteOn, 0, 0, 60, Some(64)));
    assert_eq!(events[2], channel_event(EventType::NoteOn, 480, 0, 60, Some(0)));
    assert_eq!(events[3], channel_event(EventType::NoteOn, 480, 0, 62, Some(64)));
    assert_eq!(events[4], channel_event(EventType::NoteOn, 960, 0, 62, Some(0)));
    assert_eq!(events[5], channel_event(EventType::NoteOn, 5640, 0, 64, Some(64)));
    assert_eq!(events[6], channel_event(EventType::NoteOn, 5640, 0, 64, Some(0)));
}

#[test]
fn running_status_leaves_no_bytes_unread() {
    let bytes = running_status_file();
    let (track, end) = read_midi_track(&bytes, 14).unwrap();
    assert_eq!(end, bytes.len());
    assert_eq!(track.events.len(), 7);
    let mut it = EventIterator::new(&bytes, 22);
    let mut count = 0;
    while let Some(event) = it.next() {
        assert!(event.is_ok());
        count += 1;
    }
    assert_eq!(count, 7);
    assert!(it.end_of_track);
    assert_eq!(it.pos, bytes.len());
    assert_eq!(it.next(), None);
    assert_eq!(it.pos, bytes.len());
}

#[test]
fn midi_it_parses_the_bpm_of_a_midi_file() {
    let song = read_midi(&running_status_file()).ok().expect("failed");
    assert_eq!(song.tempo, 375_000);
    let bpm = 60_000_000.0 / song.tempo as f64;
    assert_eq!(bpm as usize, 160);
    assert!((bpm - 160.0).abs() < 1.0);
}

#[test]
fn running_status_and_explicit_status_decode_alike() {
    let explicit = vec![
        0x00, 0x90, 0x3c, 0x40, 0x10, 0x90, 0x3e, 0x41, 0x10, 0x90, 0x3c, 0x00, 0x00, 0x80, 0x3e,
        0x00, 0x05, 0xc1, 0x07, 0x05, 0xc1, 0x08, 0x81, 0x00, 0xb2, 0x07, 0x7f, 0x00, 0xb2, 0x0a,
        0x40,
    ];
    let running = vec![
        0x00, 0x90, 0x3c, 0x40, 0x10, 0x3e, 0x41, 0x10, 0x3c, 0x00, 0x00, 0x80, 0x3e, 0x00, 0x05,
        0xc1, 0x07, 0x05, 0x08, 0x81, 0x00, 0xb2, 0x07, 0x7f, 0x00, 0x0a, 0x40,
    ];
    let a = read_midi(&file(96, &[explicit])).unwrap();
    let b = read_midi(&file(96, &[running])).unwrap();
    assert_eq!(a.tracks[0].events.len(), 8);
    assert_eq!(a, b);
    assert_eq!(a.tracks[0].events[7], channel_event(EventType::ControlChange, 170, 2, 10, Some(64)));
}

#[test]
fn tempo_is_that_of_the_first_tempo_event_in_file_order() {
    let slow = vec![0x00, 0xff, 0x51, 0x03, 0x0f, 0x42, 0x40]; // 1 000 000
    let fast = vec![0x00, 0xff, 0x51, 0x03, 0x03, 0xd0, 0x90]; // 250 000
    let mut both = slow.clone();
    both.extend(&fast);

    let song = read_midi(&file(96, &[slow.clone(), fast.clone()])).unwrap();
    assert_eq!(song.tempo, 1_000_000);
    let song = read_midi(&file(96, &[fast.clone(), slow.clone()])).unwrap();
    assert_eq!(song.tempo, 250_000);
    let song = read_midi(&file(96, &[vec![], both.clone(), fast.clone()])).unwrap();
    assert_eq!(song.tempo, 1_000_000);
    assert_eq!(song.tracks[1].events.len(), 2);
    assert_eq!(find_track_tempo(&song.tracks[0]), None);
    assert_eq!(find_track_tempo(&song.tracks[1]), Some(1_000_000));
    assert_eq!(find_track_tempo(&song.tracks[2]), Some(250_000));
    assert_eq!(find_tempo(&song.tracks), Some(1_000_000));
}

#[test]
fn a_song_without_tempo_events_has_the_default_tempo() {
    let song = read_midi(&file(96, &[vec![0x00, 0x90, 0x3c, 0x40]])).unwrap();
    assert_eq!(song.tempo, DEFAULT_TEMPO);
    assert_eq!(DEFAULT_TEMPO, 500_000);
    assert_eq!(find_tempo(&song.tracks), None);
}

#[test]
fn track_max_time_is_zero_below_two_events() {
    let one = vec![0x50, 0x90, 0x3c, 0x40];
    let two = vec![0x50, 0x90, 0x3c, 0x40, 0x07, 0x80, 0x3c, 0x00];
    let song = read_midi(&file(96, &[vec![], one, two])).unwrap();
    assert_eq!(song.tracks[0].max_time, 0);
    assert_eq!(song.tracks[1].max_time, 0);
    assert_eq!(song.tracks[1].events[0].time, 0x50);
    assert_eq!(song.tracks[2].max_time, 0x57);
    assert_eq!(song.max_time, 0x57);
    assert_eq!(find_max_time(&song.tracks), 0x57);
    assert_eq!(find_max_time(&Vec::new()), 0);
}

#[test]
fn a_file_without_tracks_is_an_empty_song() {
    let song = read_midi(&header(0, 96)).unwrap();
    assert_eq!(song.tracks.len(), 0);
    assert_eq!(song.max_time, 0);
    assert_eq!(song.time_unit, 96);
    assert_eq!(song.tempo, DEFAULT_TEMPO);
}

#[test]
fn bytes_after_the_last_track_are_ignored() {
    let mut bytes = two_track_file();
    let song = read_midi(&bytes).unwrap();
    bytes.extend([0xde, 0xad, 0xbe, 0xef]);
    assert_eq!(read_midi(&bytes).unwrap(), song);
}

#[test]
fn header_errors() {
    assert_eq!(read_midi(&[]), eof());
    assert_eq!(read_midi(b"MTh"), eof());
    assert_eq!(read_midi(b"MThx"), parse(ParseErrorKind::BadHeaderTag));
    assert_eq!(read_midi(b"RIFF\x00\x00\x00\x06\x00\x01\x00\x01\x00\x60"), parse(ParseErrorKind::BadHeaderTag));
    assert_eq!(read_midi(b"MThd\x00\x00\x00"), eof());
    assert_eq!(read_midi(b"MThd\x00\x00\x00\x07\x00\x01\x00\x01\x00\x60"), parse(ParseErrorKind::BadHeaderLength));
    assert_eq!(read_midi(b"MThd\x00\x00\x00\x06\x00\x01\x00\x01\x00"), eof());
    assert_eq!(read_midi(&header(0, 0x8000)), parse(ParseErrorKind::SmpteTimeDivision));
    assert_eq!(read_midi(&header(1, 0xe728)), parse(ParseErrorKind::SmpteTimeDivision));
    assert_eq!(read_midi_header(&header(3, 0x7fff)).unwrap().time_unit, 0x7fff);
    assert_eq!(read_midi_header(&header(3, 0x7fff)).unwrap().track_count, 3);
    assert_eq!(read_midi_header(&header(0xffff, 1)).unwrap().track_count, 0xffff);
}

#[test]
fn track_errors() {
    assert_eq!(read_midi(&header(1, 96)), eof());
    let mut bytes = header(1, 96);
    bytes.extend(b"MTrx\x00\x00\x00\x04\x00\xff\x2f\x00");
    assert_eq!(read_midi(&bytes), parse(ParseErrorKind::BadTrackTag));
    let mut bytes = header(1, 96);
    bytes.extend(b"MTrk\x00\x00");
    assert_eq!(read_midi(&bytes), eof());
    // A second track is declared but absent.
    let mut bytes = header(2, 96);
    bytes.extend(chunk(&END));
    assert_eq!(read_midi(&bytes), eof());
    // The end-of-track message is missing.
    let mut bytes = header(1, 96);
    bytes.extend(chunk(&[0x00, 0x90, 0x3c, 0x40]));
    assert_eq!(read_midi(&bytes), eof());
}

fn decode(events: &[u8]) -> Result<MidiSong, SynthrsError> {
    read_midi(&file(96, &[events.to_vec()]))
}

#[test]
fn event_errors() {
    assert_eq!(decode(&[0x00, 0x3c, 0x40]), parse(ParseErrorKind::MissingStatus));
    assert_eq!(decode(&[0x00, 0xf4]), parse(ParseErrorKind::UnknownSystemEvent));
    assert_eq!(decode(&[0x00, 0xf5]), parse(ParseErrorKind::UnknownSystemEvent));
    assert_eq!(decode(&[0x00, 0xf9]), parse(ParseErrorKind::UnknownSystemEvent));
    assert_eq!(decode(&[0x00, 0xfd]), parse(ParseErrorKind::UnknownSystemEvent));
    assert_eq!(decode(&[0x00, 0xf7]), parse(ParseErrorKind::UnexpectedEndOfSysex));
    assert_eq!(decode(&[0x00, 0xff, 0x51, 0x02, 0x07, 0xa1]), parse(ParseErrorKind::BadTempoLength));
    assert_eq!(decode(&[0x00, 0xff, 0x51, 0x04, 0, 0, 0, 0]), parse(ParseErrorKind::BadTempoLength));
    let max = [0xff, 0xff, 0xff, 0xff, 0xff, 0xff, 0xff, 0xff, 0xff, 0x7f];
    let mut events = max.to_vec();
    events.extend([0xf8, 0x01, 0xf8]);
    assert_eq!(decode(&events), parse(ParseErrorKind::TickOverflow));
    let mut events = max.to_vec();
    events.extend([0xf8, 0x00, 0x90, 0x3c, 0x40]);
    assert_eq!(decode(&events).unwrap().tracks[0].events[0].time, usize::MAX);
}

#[test]
fn short_reads_are_io_errors() {
    let full = two_track_file();
    for cut in 0..full.len() {
        let r = read_midi(&full[..cut]);
        assert_eq!(r, eof(), "cut at {}", cut);
        assert!(!r.unwrap_err().is_parse());
    }
    assert!(read_midi(&full).is_ok());
    assert!(SynthrsError::Parse(ParseErrorKind::BadHeaderTag).is_parse());
}

#[test]
fn system_messages_are_passed_over() {
    let events = vec![
        0x00, 0xf0, 0x41, 0x10, 0x42, 0xf7, // system exclusive
        0x01, 0xf2, 0x11, 0x22, // song position pointer
        0x01, 0xf3, 0x05, 0x00, // song select, two data bytes
        0x01, 0xf1, // time code quarter frame
        0x01, 0xf6, // tune request
        0x01, 0xf8, 0x01, 0xfa, 0x01, 0xfb, 0x01, 0xfc, 0x01, 0xfe, // real time
        0x01, 0xff, 0x03, 0x03, 0x61, 0x62, 0x63, // track name
        0x01, 0xff, 0x60, 0x01, 0x00, // a meta type that has no name
        0x01, 0x90, 0x3c, 0x40,
    ];
    let song = decode(&events).unwrap();
    assert_eq!(song.tracks[0].events, vec![channel_event(EventType::NoteOn, 12, 0, 60, Some(64))]);
}

#[test]
fn system_exclusive_ends_at_the_first_low_nibble_seven() {
    // 0x17 ends the message although its top bit is clear.
    let events = vec![0x00, 0xf0, 0x41, 0x17, 0x00, 0x90, 0x3c, 0x40];
    let song = decode(&events).unwrap();
    assert_eq!(song.tracks[0].events, vec![channel_event(EventType::NoteOn, 0, 0, 60, Some(64))]);
    assert_eq!(decode(&[0x00, 0xf0, 0x41, 0x10]), eof());
}

#[test]
fn tempo_event_carries_the_status_and_meta_types() {
    let song = decode(&[0x05, 0xff, 0x51, 0x03, 0x01, 0x02, 0x03]).unwrap();
    let event = song.tracks[0].events[0];
    assert_eq!(event.event_type, EventType::System);
    assert_eq!(event.system_event_type, Some(SystemEventType::SystemResetOrMeta));
    assert_eq!(event.meta_event_type, Some(MetaEventType::TempoSetting));
    assert_eq!(event.time, 5);
    assert_eq!(event.channel, 0xf);
    assert_eq!(event.value1, 0x010203);
    assert_eq!(event.value2, None);
    assert!(!event.is_note_terminating());
}

#[test]
fn running_status_keeps_data_bytes_in_place() {
    // Under a running meta status the byte after the delta is the meta type.
    let events = vec![0x00, 0xff, 0x03, 0x01, 0x61, 0x02, 0x51, 0x03, 0x01, 0x02, 0x03];
    let song = decode(&events).unwrap();
    assert_eq!(song.tracks[0].events, vec![tempo_event(2, 0x010203)]);
}

#[test]
fn iterator_steps_one_event_at_a_time() {
    let bytes = [0x00, 0xc3, 0x05, 0x0a, 0xf8, 0x00, 0xd3, 0x11, 0x00, 0xff, 0x2f, 0x00];
    let mut it = EventIterator::new(&bytes, 0);
    assert_eq!(it.pos, 0);
    assert_eq!(it.time, 0);
    assert_eq!(it.next(), Some(Ok(channel_event(EventType::ProgramChange, 0, 3, 5, None))));
    assert_eq!(it.pos, 3);
    assert!(!it.is_running);
    assert_eq!(it.next(), Some(Ok(channel_event(EventType::ChannelPressure, 10, 3, 0x11, None))));
    assert_eq!(it.pos, 8);
    assert_eq!(it.running, Some((EventType::ChannelPressure, 3)));
    assert_eq!(it.next(), None);
    assert!(it.end_of_track);
    assert_eq!(it.pos, 12);
}

#[test]
fn iterator_parts() {
    let bytes = [0x87, 0x40, 0x93, 0x39, 0x40, 0x41, 0xf0, 0x01, 0x07];
    let mut it = EventIterator::new(&bytes, 0);
    assert_eq!(it.read_variable_number(), Ok(960));
    assert_eq!(it.pos, 2);
    assert_eq!(it.read_status_byte(), Ok(Some((EventType::NoteOn, 3))));
    assert_eq!(it.pos, 3);
    assert_eq!(it.read_status_byte(), Ok(None));
    assert_eq!(it.pos, 3);
    it.running = Some((EventType::NoteOn, 3));
    it.time = 960;
    assert_eq!(
        it.read_data_event(DataLength::Double),
        Ok(channel_event(EventType::NoteOn, 960, 3, 0x39, Some(0x40)))
    );
    assert_eq!(it.pos, 5);
    assert_eq!(
        it.read_data_event(DataLength::Single),
        Ok(channel_event(EventType::NoteOn, 960, 3, 0x41, None))
    );
    assert_eq!(it.pos, 6);
    assert_eq!(it.read_sysex(), Ok(()));
    assert_eq!(it.pos, 9);
    assert_eq!(it.read_sysex(), eof());
    assert_eq!(it.read_status_byte(), eof());
    assert_eq!(it.read_variable_number(), eof());
    assert_eq!(it.read_data_event(DataLength::Single), eof());
    assert_eq!(it.pos, 9);
    assert_eq!(it.get_event_length(EventType::NoteOff), DataLength::Double);
    assert_eq!(it.get_event_length(EventType::NoteOn), DataLength::Double);
    assert_eq!(it.get_event_length(EventType::PolyponicKeyPressure), DataLength::Double);
    assert_eq!(it.get_event_length(EventType::ControlChange), DataLength::Double);
    assert_eq!(it.get_event_length(EventType::PitchBendChange), DataLength::Double);
    assert_eq!(it.get_event_length(EventType::ProgramChange), DataLength::Single);
    assert_eq!(it.get_event_length(EventType::ChannelPressure), DataLength::Single);
    assert_eq!(it.get_event_length(EventType::System), DataLength::System);
}

#[test]
fn a_failed_message_leaves_the_decoder_in_place() {
    let bytes = [0x05, 0x90, 0x3c, 0x40, 0x05, 0x91, 0x3c];
    let mut it = EventIterator::new(&bytes, 0);
    assert!(it.read_message().unwrap().is_ok());
    assert_eq!((it.pos, it.time), (4, 5));
    assert_eq!(it.read_message(), Some(eof()));
    assert_eq!((it.pos, it.time), (4, 5));
    assert_eq!(it.running, Some((EventType::NoteOn, 0)));
    assert_eq!(it.next(), Some(eof()));
    assert_eq!((it.pos, it.time), (4, 5));
}

#[test]
fn event_type_codes() {
    assert_eq!(EventType::from_u8(0x8), Some(EventType::NoteOff));
    assert_eq!(EventType::from_u8(0x9), Some(EventType::NoteOn));
    assert_eq!(EventType::from_u8(0xa), Some(EventType::PolyponicKeyPressure));
    assert_eq!(EventType::from_u8(0xb), Some(EventType::ControlChange));
    assert_eq!(EventType::from_u8(0xc), Some(EventType::ProgramChange));
    assert_eq!(EventType::from_u8(0xd), Some(EventType::ChannelPressure));
    assert_eq!(EventType::from_u8(0xe), Some(EventType::PitchBendChange));
    assert_eq!(EventType::from_u8(0xf), Some(EventType::System));
    for n in (0u8..8).chain(16..=255) {
        assert_eq!(EventType::from_u8(n), None);
    }
}

#[test]
fn system_event_type_codes() {
    let named = [
        (0x0, SystemEventType::SystemExclusive),
        (0x1, SystemEventType::TimeCodeQuaterFrame),
        (0x2, SystemEventType::SongPositionPointer),
        (0x3, SystemEventType::SongSelect),
        (0x6, SystemEventType::TuneRequest),
        (0x7, SystemEventType::EndOfSystemExclusive),
        (0x8, SystemEventType::TimingClock),
        (0xa, SystemEventType::Start),
        (0xb, SystemEventType::Continue),
        (0xc, SystemEventType::Stop),
        (0xe, SystemEventType::ActiveSensing),
        (0xf, SystemEventType::SystemResetOrMeta),
    ];
    for n in 0u8..=255 {
        let expected = named.iter().find(|(code, _)| *code == n).map(|(_, t)| *t);
        assert_eq!(SystemEventType::from_u8(n), expected);
    }
}

#[test]
fn meta_event_type_codes() {
    let named = [
        (0x00, MetaEventType::SequenceNumber),
        (0x01, MetaEventType::TextEvent),
        (0x02, MetaEventType::CopyrightNotice),
        (0x03, MetaEventType::SequenceOrTrackName),
        (0x04, MetaEventType::InstrumentName),
        (0x05, MetaEventType::LyricText),
        (0x06, MetaEventType::MarkerText),
        (0x07, MetaEventType::CuePoint),
        (0x20, MetaEventType::MidiChannelPrefixAssignment),
        (0x2f, MetaEventType::EndOfTrack),
        (0x51, MetaEventType::TempoSetting),
        (0x54, MetaEventType::SmpteOffset),
        (0x58, MetaEventType::TimeSignature),
        (0x7f, MetaEventType::SequencerSpecificEvent),
    ];
    for n in 0u8..=255 {
        let expected = named.iter().find(|(code, _)| *code == n).map(|(_, t)| *t);
        assert_eq!(MetaEventType::from_u8(n), expected);
    }
}

#[test]
fn note_terminating_truth_table() {
    let kinds = [
        EventType::NoteOff,
        EventType::NoteOn,
        EventType::PolyponicKeyPressure,
        EventType::ControlChange,
        EventType::ProgramChange,
        EventType::ChannelPressure,
        EventType::PitchBendChange,
        EventType::System,
    ];
    for kind in kinds {
        for value2 in [None, Some(0), Some(1), Some(64), Some(127)] {
            let event = channel_event(kind, 0, 0, 60, value2);
            let expected = kind == EventType::NoteOff
                || (kind == EventType::NoteOn && value2 == Some(0));
            assert_eq!(event.is_note_terminating(), expected);
        }
    }
    assert!(channel_event(EventType::NoteOff, 0, 0, 60, Some(64)).is_note_terminating());
    assert!(channel_event(EventType::NoteOn, 0, 0, 60, Some(0)).is_note_terminating());
    assert!(!channel_event(EventType::NoteOn, 0, 0, 60, Some(1)).is_note_terminating());
    assert!(!channel_event(EventType::NoteOn, 0, 0, 60, None).is_note_terminating());
    assert!(!channel_event(EventType::ControlChange, 0, 0, 60, Some(0)).is_note_terminating());
}

#[test]
fn new_track_is_empty() {
    let track = MidiTrack::new();
    assert_eq!(track.events.len(), 0);
    assert_eq!(track.max_time, 0);
}
