//! Standard MIDI File decoding: the event vocabulary, the track decoder with
//! running status, and the file loader.

pub mod format;
pub mod laws;
pub mod vlq;

use crate::endian::{read_u16_be, read_u32_be};
use crate::errors::{IoErrorKind, ParseErrorKind, SynthrsError};
use crate::midi::format::{
    first_tempo, song_max_time, spec_data_event, spec_events, spec_header, spec_meta_event,
    spec_next, spec_read_midi, spec_step, spec_system_event, spec_track, spec_tracks, status_kind,
    sysex_end, track_tempo, Decoded, DecoderState, HEADER_TAG, TRACK_TAG,
};
use crate::midi::vlq::spec_read_variable_number;
use vstd::prelude::*;
use vstd::slice::slice_subrange;

verus! {

/// The kind of a MIDI message, named by the high nibble of its status byte.
#[derive(PartialEq, Eq, Structural, Clone, Copy, Debug)]
pub enum EventType {
    NoteOff,
    NoteOn,
    PolyponicKeyPressure,
    ControlChange,
    ProgramChange,
    ChannelPressure,
    PitchBendChange,
    System,
}

impl EventType {
    /// The high nibble of the status bytes that announce this kind of message.
    pub open spec fn code(self) -> u8 {
        match self {
            EventType::NoteOff => 0x8,
            EventType::NoteOn => 0x9,
            EventType::PolyponicKeyPressure => 0xa,
            EventType::ControlChange => 0xb,
            EventType::ProgramChange => 0xc,
            EventType::ChannelPressure => 0xd,
            EventType::PitchBendChange => 0xe,
            EventType::System => 0xf,
        }
    }

    /// The kind whose code is `n`, if there is one.
    pub open spec fn spec_from_u8(n: u8) -> Option<EventType> {
        if exists|t: EventType| t.code() == n {
            Some(choose|t: EventType| t.code() == n)
        } else {
            None
        }
    }

    /// How many data bytes follow the status of a channel message of this kind;
    /// `None` for system messages, whose length depends on the message.
    pub open spec fn data_bytes(self) -> Option<nat> {
        match self {
            EventType::NoteOff
            | EventType::NoteOn
            | EventType::PolyponicKeyPressure
            | EventType::ControlChange
            | EventType::PitchBendChange => Some(2),
            EventType::ProgramChange | EventType::ChannelPressure => Some(1),
            EventType::System => None,
        }
    }

    /// Decodes the high nibble of a status byte.
    #[verifier::when_used_as_spec(spec_from_u8)]
    pub fn from_u8(n: u8) -> (r: Option<EventType>)
        ensures
            r == EventType::spec_from_u8(n),
            r matches Some(t) ==> t.code() == n,
            r is None <==> !(0x8 <= n <= 0xf),
    {
        let r = match n {
            0x8 => Some(EventType::NoteOff),
            0x9 => Some(EventType::NoteOn),
            0xa => Some(EventType::PolyponicKeyPressure),
            0xb => Some(EventType::ControlChange),
            0xc => Some(EventType::ProgramChange),
            0xd => Some(EventType::ChannelPressure),
            0xe => Some(EventType::PitchBendChange),
            0xf => Some(EventType::System),
            _ => None,
        };
        proof {
            if let Some(t) = r {
                assert(t.code() == n);
            }
        }
        r
    }
}

/// The system message that the low nibble of a system status byte names.
#[derive(PartialEq, Eq, Structural, Clone, Copy, Debug)]
pub enum SystemEventType {
    SystemExclusive,
    TimeCodeQuaterFrame,
    SongPositionPointer,
    SongSelect,
    TuneRequest,
    EndOfSystemExclusive,
    TimingClock,
    Start,
    Continue,
    Stop,
    ActiveSensing,
    SystemResetOrMeta,
}

impl SystemEventType {
    /// The low nibble of the status byte of this system message.
    pub open spec fn code(self) -> u8 {
        match self {
            SystemEventType::SystemExclusive => 0x0,
            SystemEventType::TimeCodeQuaterFrame => 0x1,
            SystemEventType::SongPositionPointer => 0x2,
            SystemEventType::SongSelect => 0x3,
            SystemEventType::TuneRequest => 0x6,
            SystemEventType::EndOfSystemExclusive => 0x7,
            SystemEventType::TimingClock => 0x8,
            SystemEventType::Start => 0xa,
            SystemEventType::Continue => 0xb,
            SystemEventType::Stop => 0xc,
            SystemEventType::ActiveSensing => 0xe,
            SystemEventType::SystemResetOrMeta => 0xf,
        }
    }

    /// The system message whose code is `n`, if there is one.
    pub open spec fn spec_from_u8(n: u8) -> Option<SystemEventType> {
        if exists|t: SystemEventType| t.code() == n {
            Some(choose|t: SystemEventType| t.code() == n)
        } else {
            None
        }
    }

    /// Decodes the low nibble of a system status byte.
    #[verifier::when_used_as_spec(spec_from_u8)]
    pub fn from_u8(n: u8) -> (r: Option<SystemEventType>)
        ensures
            r == SystemEventType::spec_from_u8(n),
            r matches Some(t) ==> t.code() == n,
            r is None <==> (n == 0x4 || n == 0x5 || n == 0x9 || n == 0xd || n > 0xf),
    {
        let r = match n {
            0x0 => Some(SystemEventType::SystemExclusive),
            0x1 => Some(SystemEventType::TimeCodeQuaterFrame),
            0x2 => Some(SystemEventType::SongPositionPointer),
            0x3 => Some(SystemEventType::SongSelect),
            0x6 => Some(SystemEventType::TuneRequest),
            0x7 => Some(SystemEventType::EndOfSystemExclusive),
            0x8 => Some(SystemEventType::TimingClock),
            0xa => Some(SystemEventType::Start),
            0xb => Some(SystemEventType::Continue),
            0xc => Some(SystemEventType::Stop),
            0xe => Some(SystemEventType::ActiveSensing),
            0xf => Some(SystemEventType::SystemResetOrMeta),
            _ => None,
        };
        proof {
            if let Some(t) = r {
                assert(t.code() == n);
            }
        }
        r
    }
}

/// The meta message that the type byte after an `0xFF` status names.
#[derive(PartialEq, Eq, Structural, Clone, Copy, Debug)]
pub enum MetaEventType {
    SequenceNumber,
    TextEvent,
    CopyrightNotice,
    SequenceOrTrackName,
    InstrumentName,
    LyricText,
    MarkerText,
    CuePoint,
    MidiChannelPrefixAssignment,
    EndOfTrack,
    TempoSetting,
    SmpteOffset,
    TimeSignature,
    SequencerSpecificEvent,
}

impl MetaEventType {
    /// The type byte of this meta message.
    pub open spec fn code(self) -> u8 {
        match self {
            MetaEventType::SequenceNumber => 0x00,
            MetaEventType::TextEvent => 0x01,
            MetaEventType::CopyrightNotice => 0x02,
            MetaEventType::SequenceOrTrackName => 0x03,
            MetaEventType::InstrumentName => 0x04,
            MetaEventType::LyricText => 0x05,
            MetaEventType::MarkerText => 0x06,
            MetaEventType::CuePoint => 0x07,
            MetaEventType::MidiChannelPrefixAssignment => 0x20,
            MetaEventType::EndOfTrack => 0x2f,
            MetaEventType::TempoSetting => 0x51,
            MetaEventType::SmpteOffset => 0x54,
            MetaEventType::TimeSignature => 0x58,
            MetaEventType::SequencerSpecificEvent => 0x7f,
        }
    }

    /// The meta message whose type byte is `n`, if there is one.
    pub open spec fn spec_from_u8(n: u8) -> Option<MetaEventType> {
        if exists|t: MetaEventType| t.code() == n {
            Some(choose|t: MetaEventType| t.code() == n)
        } else {
            None
        }
    }

    /// Decodes the type byte of a meta message.
    #[verifier::when_used_as_spec(spec_from_u8)]
    pub fn from_u8(n: u8) -> (r: Option<MetaEventType>)
        ensures
            r == MetaEventType::spec_from_u8(n),
            r matches Some(t) ==> t.code() == n,
            r is None <==> !(n <= 0x07 || n == 0x20 || n == 0x2f || n == 0x51 || n == 0x54 || n
                == 0x58 || n == 0x7f),
    {
        let r = match n {
            0x00 => Some(MetaEventType::SequenceNumber),
            0x01 => Some(MetaEventType::TextEvent),
            0x02 => Some(MetaEventType::CopyrightNotice),
            0x03 => Some(MetaEventType::SequenceOrTrackName),
            0x04 => Some(MetaEventType::InstrumentName),
            0x05 => Some(MetaEventType::LyricText),
            0x06 => Some(MetaEventType::MarkerText),
            0x07 => Some(MetaEventType::CuePoint),
            0x20 => Some(MetaEventType::MidiChannelPrefixAssignment),
            0x2f => Some(MetaEventType::EndOfTrack),
            0x51 => Some(MetaEventType::TempoSetting),
            0x54 => Some(MetaEventType::SmpteOffset),
            0x58 => Some(MetaEventType::TimeSignature),
            0x7f => Some(MetaEventType::SequencerSpecificEvent),
            _ => None,
        };
        proof {
            if let Some(t) = r {
                assert(t.code() == n);
            }
        }
        r
    }
}

/// A decoded MIDI message.
#[derive(PartialEq, Eq, Structural, Clone, Copy, Debug)]
pub struct MidiEvent {
    pub event_type: EventType,
    /// Present only on system messages.
    pub system_event_type: Option<SystemEventType>,
    /// Present only on meta messages.
    pub meta_event_type: Option<MetaEventType>,
    /// Absolute position in ticks: the sum of the delta times up to this message.
    pub time: usize,
    /// Low nibble of the status byte.
    pub channel: u8,
    pub value1: usize,
    pub value2: Option<usize>,
}

impl MidiEvent {
    /// Whether this message ends a sounding note: a note-off, or a note-on
    /// whose velocity is zero.
    pub open spec fn spec_is_note_terminating(self) -> bool {
        self.event_type == EventType::NoteOff || (self.event_type == EventType::NoteOn
            && self.value2 == Some(0usize))
    }

    /// Whether this message ends a sounding note. A note-on with velocity 0 is
    /// a note-off by convention.
    #[verifier::when_used_as_spec(spec_is_note_terminating)]
    pub fn is_note_terminating(self) -> (r: bool)
        ensures
            r == self.spec_is_note_terminating(),
            self.event_type == EventType::NoteOff ==> r,
            self.event_type == EventType::NoteOn ==> (r <==> self.value2 == Some(0usize)),
            self.event_type != EventType::NoteOff && self.event_type != EventType::NoteOn ==> !r,
    {
        match self.event_type {
            EventType::NoteOff => true,
            EventType::NoteOn => match self.value2 {
                Some(v) => v == 0,
                None => false,
            },
            _ => false,
        }
    }
}

/// The events of one track chunk, in file order.
#[derive(PartialEq, Eq, Clone, Debug)]
pub struct MidiTrack {
    pub events: Vec<MidiEvent>,
    /// Tick of the last event; 0 for a track of fewer than two events.
    pub max_time: usize,
}

/// What a track holds, as mathematical values.
pub struct TrackData {
    pub events: Seq<MidiEvent>,
    pub max_time: usize,
}

impl View for MidiTrack {
    type V = TrackData;

    open spec fn view(&self) -> TrackData {
        TrackData { events: self.events@, max_time: self.max_time }
    }
}

impl MidiTrack {
    /// A track without events.
    pub fn new() -> (track: MidiTrack)
        ensures
            track@ == (TrackData { events: Seq::<MidiEvent>::empty(), max_time: 0 }),
    {
        let events: Vec<MidiEvent> = Vec::new();
        MidiTrack { events: events, max_time: 0 }
    }
}

/// The tempo of a song that sets none: 500 000 microseconds per quarter note,
/// which is 120 beats per minute.
pub const DEFAULT_TEMPO: usize = 500_000;

/// A decoded MIDI file.
#[derive(PartialEq, Eq, Clone, Debug)]
pub struct MidiSong {
    /// Largest `max_time` of any track, in ticks.
    pub max_time: usize,
    /// Ticks per quarter note.
    pub time_unit: isize,
    pub tracks: Vec<MidiTrack>,
    /// Track count declared by the header.
    pub track_count: usize,
    /// Microseconds per quarter note, from the first tempo event in file order.
    pub tempo: usize,
}

/// What a song holds, as mathematical values.
pub struct SongData {
    pub max_time: usize,
    pub time_unit: isize,
    pub tracks: Seq<TrackData>,
    pub track_count: usize,
    pub tempo: usize,
}

/// The tracks of a song as mathematical values.
pub open spec fn tracks_view(tracks: Seq<MidiTrack>) -> Seq<TrackData> {
    tracks.map_values(|t: MidiTrack| t@)
}

impl View for MidiSong {
    type V = SongData;

    open spec fn view(&self) -> SongData {
        SongData {
            max_time: self.max_time,
            time_unit: self.time_unit,
            tracks: tracks_view(self.tracks@),
            track_count: self.track_count,
            tempo: self.tempo,
        }
    }
}

/// How many data bytes a message carries after its status.
#[derive(PartialEq, Eq, Structural, Clone, Copy, Debug)]
pub enum DataLength {
    Single,
    Double,
    /// A system message: the length depends on the message.
    System,
}

/// A pull decoder over the events of one track.
///
/// It reads from `bytes` at `pos` and keeps what running status needs: the
/// kind and channel of the last status byte seen.
#[derive(Clone, Copy, Debug)]
pub struct EventIterator<'a> {
    pub bytes: &'a [u8],
    /// Position of the next unread byte.
    pub pos: usize,
    /// Tick of the last message read.
    pub time: usize,
    /// Kind and channel of the most recent status byte.
    pub running: Option<(EventType, u8)>,
    /// Whether the last message came without a status byte of its own.
    pub is_running: bool,
    /// Whether the end-of-track message has been read.
    pub end_of_track: bool,
}

impl<'a> View for EventIterator<'a> {
    type V = DecoderState;

    open spec fn view(&self) -> DecoderState {
        DecoderState {
            pos: self.pos as int,
            time: self.time,
            running: self.running,
            is_running: self.is_running,
            end_of_track: self.end_of_track,
        }
    }
}

/// Whether an answer and the states around it are what the model of a message
/// says: on success the new state and the event, on failure the error and the
/// state unchanged.
pub open spec fn agrees(
    model: Decoded,
    before: DecoderState,
    after: DecoderState,
    r: Option<Result<MidiEvent, SynthrsError>>,
) -> bool {
    match model {
        Err(e) => r == Some(Err::<MidiEvent, SynthrsError>(e)) && after == before,
        Ok((next, Some(event))) => r == Some(Ok::<MidiEvent, SynthrsError>(event)) && after
            == next,
        Ok((next, None)) => r is None && after == next,
    }
}

impl<'a> EventIterator<'a> {
    /// A decoder that starts at position `pos` of `bytes`, at tick 0 and
    /// without a status.
    pub fn new(bytes: &'a [u8], pos: usize) -> (it: EventIterator<'a>)
        ensures
            it.bytes@ == bytes@,
            it@ == DecoderState::start(pos as int),
    {
        EventIterator {
            bytes: bytes,
            pos: pos,
            time: 0,
            running: None,
            is_running: false,
            end_of_track: false,
        }
    }

    /// How many data bytes follow the status of a message of this kind.
    pub fn get_event_length(&self, event_type: EventType) -> (length: DataLength)
        ensures
            length == DataLength::Single <==> event_type.data_bytes() == Some(1nat),
            length == DataLength::Double <==> event_type.data_bytes() == Some(2nat),
            length == DataLength::System <==> event_type.data_bytes() is None,
    {
        match event_type {
            EventType::NoteOff
            | EventType::NoteOn
            | EventType::PolyponicKeyPressure
            | EventType::ControlChange
            | EventType::PitchBendChange => DataLength::Double,
            EventType::ProgramChange | EventType::ChannelPressure => DataLength::Single,
            EventType::System => DataLength::System,
        }
    }

    /// Reads a variable-length quantity and moves past it. On failure the
    /// decoder stays where it was.
    pub fn read_variable_number(&mut self) -> (r: Result<usize, SynthrsError>)
        ensures
            final(self).bytes@ == old(self).bytes@,
            match spec_read_variable_number(old(self).bytes@, old(self).pos as int) {
                Some((v, next)) => r == Ok::<usize, SynthrsError>(v)
                    && final(self)@ == old(self)@.at(next),
                None => r == Err::<usize, SynthrsError>(SynthrsError::eof()) && final(self)@
                    == old(self)@,
            },
    {
        match vlq::read_variable_number(self.bytes, self.pos) {
            Ok((value, next)) => {
                self.pos = next;
                Ok(value)
            },
            Err(e) => Err(e),
        }
    }

    /// Looks at the next byte. A status byte (top bit set) is taken and split
    /// into kind and channel; a data byte is left unread and `None` returned.
    pub fn read_status_byte(&mut self) -> (r: Result<Option<(EventType, u8)>, SynthrsError>)
        ensures
            final(self).bytes@ == old(self).bytes@,
            old(self).pos >= old(self).bytes@.len() ==> r == Err::<
                Option<(EventType, u8)>,
                SynthrsError,
            >(SynthrsError::eof()) && final(self)@ == old(self)@,
            old(self).pos < old(self).bytes@.len() ==> ({
                let byte = old(self).bytes@[old(self).pos as int];
                if byte >= 0x80 {
                    r == Ok::<Option<(EventType, u8)>, SynthrsError>(
                        Some((status_kind(byte), (byte % 16) as u8)),
                    ) && final(self)@ == old(self)@.at(old(self).pos + 1)
                } else {
                    r == Ok::<Option<(EventType, u8)>, SynthrsError>(None)
                        && final(self)@ == old(self)@
                }
            }),
    {
        if self.pos >= self.bytes.len() {
            return Err(SynthrsError::Io(IoErrorKind::UnexpectedEof));
        }
        let byte: u8 = self.bytes[self.pos];
        if byte >= 0x80 {
            let high: u8 = byte >> 4;
            let channel: u8 = byte & 0x0f;
            assert(byte >> 4 == byte / 16 && byte & 0x0f == byte % 16) by (bit_vector);
            match EventType::from_u8(high) {
                Some(status) => {
                    self.pos = self.pos + 1;
                    Ok(Some((status, channel)))
                },
                None => {
                    // Not reached: every high nibble from 8 up names a kind.
                    proof {
                        assert(false);
                    }
                    Err(SynthrsError::Parse(ParseErrorKind::MissingStatus))
                },
            }
        } else {
            Ok(None)
        }
    }

    /// Reads the data bytes of a channel message under the status in force.
    pub fn read_data_event(&mut self, length: DataLength) -> (r: Result<MidiEvent, SynthrsError>)
        requires
            old(self).running is Some,
            length != DataLength::System,
        ensures
            final(self).bytes@ == old(self).bytes@,
            old(self).running matches Some((kind, channel)) && agrees(
                spec_data_event(
                    old(self).bytes@,
                    old(self)@,
                    kind,
                    channel,
                    if length == DataLength::Single {
                        1nat
                    } else {
                        2nat
                    },
                ),
                old(self)@,
                final(self)@,
                Some(r),
            ),
    {
        let (kind, channel) = match self.running {
            Some(pair) => pair,
            None => {
                // Not reached: the caller has seen to a status.
                proof {
                    assert(false);
                }
                (EventType::System, 0u8)
            },
        };
        let n: usize = match length {
            DataLength::Single => 1,
            _ => 2,
        };
        if self.pos > self.bytes.len() || self.bytes.len() - self.pos < n {
            return Err(SynthrsError::Io(IoErrorKind::UnexpectedEof));
        }
        let value1: usize = self.bytes[self.pos] as usize;
        let value2: Option<usize> = if n == 2 {
            Some(self.bytes[self.pos + 1] as usize)
        } else {
            None
        };
        let event = MidiEvent {
            event_type: kind,
            system_event_type: None,
            meta_event_type: None,
            time: self.time,
            channel: channel,
            value1: value1,
            value2: value2,
        };
        self.pos = self.pos + n;
        Ok(event)
    }

    /// Passes over a system-exclusive message: everything up to and including
    /// the first byte whose low nibble is that of the end-of-exclusive status.
    pub fn read_sysex(&mut self) -> (r: Result<(), SynthrsError>)
        ensures
            final(self).bytes@ == old(self).bytes@,
            match sysex_end(old(self).bytes@, old(self).pos as int) {
                Some(q) => r == Ok::<(), SynthrsError>(()) && final(self)@ == old(self)@.at(q + 1),
                None => r == Err::<(), SynthrsError>(SynthrsError::eof())
                    && final(self)@ == old(self)@,
            },
    {
        let mut at: usize = self.pos;
        loop
            invariant
                self.pos <= at,
                self == old(self),
                sysex_end(self.bytes@, self.pos as int) == sysex_end(self.bytes@, at as int),
            decreases self.bytes@.len() - at,
        {
            if at >= self.bytes.len() {
                return Err(SynthrsError::Io(IoErrorKind::UnexpectedEof));
            }
            let byte: u8 = self.bytes[at];
            let next_byte: u8 = byte & 0x0f;
            assert(byte & 0x0f == byte % 16) by (bit_vector);
            at = at + 1;
            if next_byte == 0x7 {
                self.pos = at;
                return Ok(());
            }
        }
    }

    /// Reads a meta message: type byte, length, data.
    fn read_meta_event(&mut self, channel: u8) -> (r: Option<Result<MidiEvent, SynthrsError>>)
        ensures
            final(self).bytes@ == old(self).bytes@,
            agrees(
                spec_meta_event(old(self).bytes@, old(self)@, channel),
                old(self)@,
                final(self)@,
                r,
            ),
    {
        let len: usize = self.bytes.len();
        if self.pos >= len {
            return Some(Err(SynthrsError::Io(IoErrorKind::UnexpectedEof)));
        }
        let meta_message_type = MetaEventType::from_u8(self.bytes[self.pos]);
        proof {
            vlq::lemma_vlq_from_bounds(self.bytes@, self.pos + 1, 0);
        }
        let (meta_data_size, p) = match vlq::read_variable_number(self.bytes, self.pos + 1) {
            Ok(pair) => pair,
            Err(e) => {
                return Some(Err(e));
            },
        };
        match meta_message_type {
            Some(MetaEventType::EndOfTrack) => {
                self.pos = p;
                self.end_of_track = true;
                None
            },
            Some(MetaEventType::TempoSetting) => {
                if meta_data_size != 3 {
                    return Some(Err(SynthrsError::Parse(ParseErrorKind::BadTempoLength)));
                }
                if len - p < 3 {
                    return Some(Err(SynthrsError::Io(IoErrorKind::UnexpectedEof)));
                }
                let tempo_byte1: usize = self.bytes[p] as usize;
                let tempo_byte2: usize = self.bytes[p + 1] as usize;
                let tempo_byte3: usize = self.bytes[p + 2] as usize;
                let tempo: usize = tempo_byte1 * 0x1_0000 + tempo_byte2 * 0x100 + tempo_byte3;
                let event = MidiEvent {
                    event_type: EventType::System,
                    system_event_type: Some(SystemEventType::SystemResetOrMeta),
                    meta_event_type: meta_message_type,
                    time: self.time,
                    channel: channel,
                    value1: tempo,
                    value2: None,
                };
                self.pos = p + 3;
                Some(Ok(event))
            },
            _ => {
                if len - p < meta_data_size {
                    return Some(Err(SynthrsError::Io(IoErrorKind::UnexpectedEof)));
                }
                self.pos = p + meta_data_size;
                None
            },
        }
    }

    /// Reads what follows a system status byte whose low nibble is `channel`.
    /// Returns `None` where the message yields no event.
    fn read_system_event(&mut self, channel: u8) -> (r: Option<Result<MidiEvent, SynthrsError>>)
        ensures
            final(self).bytes@ == old(self).bytes@,
            agrees(
                spec_system_event(old(self).bytes@, old(self)@, channel),
                old(self)@,
                final(self)@,
                r,
            ),
    {
        let system_event_type = match SystemEventType::from_u8(channel) {
            Some(t) => t,
            None => {
                return Some(Err(SynthrsError::Parse(ParseErrorKind::UnknownSystemEvent)));
            },
        };
        match system_event_type {
            SystemEventType::SystemExclusive => {
                match self.read_sysex() {
                    Ok(()) => None,
                    Err(e) => Some(Err(e)),
                }
            },
            SystemEventType::EndOfSystemExclusive => {
                Some(Err(SynthrsError::Parse(ParseErrorKind::UnexpectedEndOfSysex)))
            },
            SystemEventType::TuneRequest
            | SystemEventType::TimingClock
            | SystemEventType::TimeCodeQuaterFrame
            | SystemEventType::Start
            | SystemEventType::Continue
            | SystemEventType::Stop
            | SystemEventType::ActiveSensing => None,
            SystemEventType::SongPositionPointer | SystemEventType::SongSelect => {
                if self.pos > self.bytes.len() || self.bytes.len() - self.pos < 2 {
                    Some(Err(SynthrsError::Io(IoErrorKind::UnexpectedEof)))
                } else {
                    self.pos = self.pos + 2;
                    None
                }
            },
            SystemEventType::SystemResetOrMeta => self.read_meta_event(channel),
        }
    }

    /// Decodes one message: delta time, status or running status, data.
    /// Returns `None` where the message yields no event. On failure the
    /// decoder is left as it was before the message.
    pub fn read_message(&mut self) -> (r: Option<Result<MidiEvent, SynthrsError>>)
        ensures
            final(self).bytes@ == old(self).bytes@,
            agrees(spec_step(old(self).bytes@, old(self)@), old(self)@, final(self)@, r),
    {
        let before: EventIterator<'a> = *self;
        proof {
            vlq::lemma_vlq_from_bounds(self.bytes@, self.pos as int, 0);
        }
        let delta_time: usize = match self.read_variable_number() {
            Ok(d) => d,
            Err(e) => {
                return Some(Err(e));
            },
        };
        let time: usize = match self.time.checked_add(delta_time) {
            Some(t) => t,
            None => {
                *self = before;
                return Some(Err(SynthrsError::Parse(ParseErrorKind::TickOverflow)));
            },
        };
        self.time = time;
        match self.read_status_byte() {
            Ok(Some(status)) => {
                self.running = Some(status);
                self.is_running = false;
            },
            Ok(None) => {
                self.is_running = true;
            },
            Err(e) => {
                *self = before;
                return Some(Err(e));
            },
        }
        let (kind, channel) = match self.running {
            Some(pair) => pair,
            None => {
                *self = before;
                return Some(Err(SynthrsError::Parse(ParseErrorKind::MissingStatus)));
            },
        };
        let r = match self.get_event_length(kind) {
            DataLength::System => self.read_system_event(channel),
            length => Some(self.read_data_event(length)),
        };
        match r {
            Some(Err(e)) => {
                *self = before;
                Some(Err(e))
            },
            _ => r,
        }
    }

    /// The next event of the track, or `None` once the end-of-track message
    /// has been read. Messages that yield no event are passed over. After an
    /// error the decoder stands at the message that failed.
    pub fn next(&mut self) -> (r: Option<Result<MidiEvent, SynthrsError>>)
        ensures
            final(self).bytes@ == old(self).bytes@,
            (r, final(self)@) == spec_next(old(self).bytes@, old(self)@),
    {
        while !self.end_of_track
            invariant
                self.bytes@ == old(self).bytes@,
                spec_next(old(self).bytes@, old(self)@) == spec_next(self.bytes@, self@),
            decreases self.bytes@.len() - self.pos,
        {
            proof {
                format::lemma_step_advances(self.bytes@, self@);
            }
            match self.read_message() {
                Some(answer) => {
                    return Some(answer);
                },
                None => {},
            }
        }
        None
    }
}

/// Decodes the track chunk that starts at `pos`. Returns the track and the
/// position after its end-of-track message.
pub fn read_midi_track(bytes: &[u8], pos: usize) -> (r: Result<(MidiTrack, usize), SynthrsError>)
    ensures
        match spec_track(bytes@, pos as int) {
            Ok((data, next)) => r matches Ok((track, after)) && track@ == data && after == next,
            Err(e) => r matches Err(err) && err == e,
        },
        r matches Ok((track, after)) ==> laws::track_wf(track@) && pos + 8 < after <= bytes@.len(),
{
    proof {
        laws::lemma_decoded_track_is_well_formed(bytes@, pos as int);
    }
    let len: usize = bytes.len();
    if pos > len || len - pos < 4 {
        return Err(SynthrsError::Io(IoErrorKind::UnexpectedEof));
    }
    if read_u32_be(slice_subrange(bytes, pos, pos + 4)) != TRACK_TAG {
        return Err(SynthrsError::Parse(ParseErrorKind::BadTrackTag));
    }
    if len - pos < 8 {
        return Err(SynthrsError::Io(IoErrorKind::UnexpectedEof));
    }
    let mut track = MidiTrack::new();
    let mut it = EventIterator::new(bytes, pos + 8);
    let ghost start = it@;
    assert(track.events@ + spec_events(bytes@, start)->Ok_0.0 =~= spec_events(
        bytes@,
        start,
    )->Ok_0.0);
    loop
        invariant
            it.bytes@ == bytes@,
            pos + 8 <= bytes@.len(),
            format::be32_at(bytes@, pos as int) == TRACK_TAG,
            start == DecoderState::start(pos + 8),
            match spec_events(bytes@, it@) {
                Ok((rest, last)) => spec_events(bytes@, start) == Ok::<
                    (Seq<MidiEvent>, DecoderState),
                    SynthrsError,
                >((track.events@ + rest, last)),
                Err(e) => spec_events(bytes@, start) == Err::<
                    (Seq<MidiEvent>, DecoderState),
                    SynthrsError,
                >(e),
            },
        ensures
            spec_events(bytes@, start) == Ok::<(Seq<MidiEvent>, DecoderState), SynthrsError>(
                (track.events@, it@),
            ),
        decreases bytes@.len() - it.pos,
    {
        let ghost before = it@;
        proof {
            format::lemma_next_advances(bytes@, before);
        }
        match it.next() {
            None => {
                assert(track.events@ + Seq::<MidiEvent>::empty() =~= track.events@);
                break ;
            },
            Some(Err(e)) => {
                return Err(e);
            },
            Some(Ok(event)) => {
                let ghost sofar = track.events@;
                track.events.push(event);
                proof {
                    if let Ok((rest, last)) = spec_events(bytes@, it@) {
                        assert(sofar + (seq![event] + rest) =~= sofar.push(event) + rest);
                    }
                }
            },
        }
    }
    let n: usize = track.events.len();
    track.max_time = if n > 1 {
        track.events[n - 1].time
    } else {
        0
    };
    Ok((track, it.pos))
}

/// Decodes the 14-byte header chunk into a song without tracks, at the
/// default tempo.
pub fn read_midi_header(bytes: &[u8]) -> (r: Result<MidiSong, SynthrsError>)
    ensures
        match spec_header(bytes@) {
            Ok((track_count, time_unit)) => r matches Ok(song) && song@ == (SongData {
                max_time: 0,
                time_unit: time_unit,
                tracks: Seq::<TrackData>::empty(),
                track_count: track_count,
                tempo: DEFAULT_TEMPO,
            }),
            Err(e) => r matches Err(err) && err == e,
        },
{
    let len: usize = bytes.len();
    if len < 4 {
        return Err(SynthrsError::Io(IoErrorKind::UnexpectedEof));
    }
    if read_u32_be(slice_subrange(bytes, 0, 4)) != HEADER_TAG {
        return Err(SynthrsError::Parse(ParseErrorKind::BadHeaderTag));
    }
    if len < 8 {
        return Err(SynthrsError::Io(IoErrorKind::UnexpectedEof));
    }
    if read_u32_be(slice_subrange(bytes, 4, 8)) != 6 {
        return Err(SynthrsError::Parse(ParseErrorKind::BadHeaderLength));
    }
    if len < 14 {
        return Err(SynthrsError::Io(IoErrorKind::UnexpectedEof));
    }
    let track_count: u16 = read_u16_be(slice_subrange(bytes, 10, 12));
    let time_division: u16 = read_u16_be(slice_subrange(bytes, 12, 14));
    if time_division >= 0x8000 {
        return Err(SynthrsError::Parse(ParseErrorKind::SmpteTimeDivision));
    }
    let tracks: Vec<MidiTrack> = Vec::new();
    let song = MidiSong {
        max_time: 0,
        time_unit: time_division as isize,
        tracks: tracks,
        track_count: track_count as usize,
        tempo: DEFAULT_TEMPO,
    };
    assert(tracks_view(song.tracks@) =~= Seq::<TrackData>::empty());
    Ok(song)
}

/// The tempo that the first tempo event of a track sets, if it has one.
pub fn find_track_tempo(track: &MidiTrack) -> (r: Option<usize>)
    ensures
        r == track_tempo(track@.events),
{
    let n: usize = track.events.len();
    let mut i: usize = 0;
    assert(track.events@.skip(0) =~= track.events@);
    while i < n
        invariant
            n == track.events@.len(),
            i <= n,
            track_tempo(track.events@) == track_tempo(track.events@.skip(i as int)),
        decreases n - i,
    {
        let event: MidiEvent = track.events[i];
        assert(track.events@.skip(i as int).first() == event);
        assert(track.events@.skip(i as int).drop_first() =~= track.events@.skip(i + 1));
        match event.meta_event_type {
            Some(MetaEventType::TempoSetting) => {
                return Some(event.value1);
            },
            _ => {},
        }
        i = i + 1;
    }
    None
}

/// The tempo that the first tempo event in file order sets: tracks are
/// searched in order, and each track from its first event.
pub fn find_tempo(tracks: &Vec<MidiTrack>) -> (r: Option<usize>)
    ensures
        r == first_tempo(tracks_view(tracks@)),
{
    let n: usize = tracks.len();
    let ghost all = tracks_view(tracks@);
    let mut k: usize = 0;
    assert(all.skip(0) =~= all);
    while k < n
        invariant
            n == tracks@.len(),
            all == tracks_view(tracks@),
            k <= n,
            first_tempo(all) == first_tempo(all.skip(k as int)),
        decreases n - k,
    {
        assert(all.skip(k as int).first() == tracks@[k as int]@);
        assert(all.skip(k as int).drop_first() =~= all.skip(k + 1));
        match find_track_tempo(&tracks[k]) {
            Some(t) => {
                return Some(t);
            },
            None => {},
        }
        k = k + 1;
    }
    None
}

/// The largest `max_time` among tracks.
pub fn find_max_time(tracks: &Vec<MidiTrack>) -> (r: usize)
    ensures
        r == song_max_time(tracks_view(tracks@)),
{
    let n: usize = tracks.len();
    let ghost all = tracks_view(tracks@);
    let mut acc: usize = 0;
    let mut k: usize = 0;
    while k < n
        invariant
            n == tracks@.len(),
            all == tracks_view(tracks@),
            k <= n,
            acc == song_max_time(all.take(k as int)),
        decreases n - k,
    {
        assert(all.take(k + 1).drop_last() =~= all.take(k as int));
        assert(all.take(k + 1).last() == tracks@[k as int]@);
        if tracks[k].max_time > acc {
            acc = tracks[k].max_time;
        }
        k = k + 1;
    }
    assert(all.take(n as int) =~= all);
    acc
}

/// Decodes a whole Standard MIDI File held in memory.
///
/// The song has as many tracks as the header declares, in file order. Its
/// `max_time` is the largest of the tracks', and its tempo that of the first
/// tempo event in file order; later tempo events change nothing. Any error
/// in any track fails the whole file.
pub fn read_midi(bytes: &[u8]) -> (r: Result<MidiSong, SynthrsError>)
    ensures
        match spec_read_midi(bytes@) {
            Ok(data) => r matches Ok(song) && song@ == data,
            Err(e) => r matches Err(err) && err == e,
        },
        r matches Ok(song) ==> song.tracks@.len() == song.track_count && laws::song_wf(song@),
{
    proof {
        laws::lemma_decoded_song_is_well_formed(bytes@);
    }
    let mut song = match read_midi_header(bytes) {
        Ok(song) => song,
        Err(e) => {
            return Err(e);
        },
    };
    let count: usize = song.track_count;
    let mut pos: usize = 14;
    let mut i: usize = 0;
    while i < count
        invariant
            i <= count,
            song.tracks@.len() == i,
            song.track_count == count,
            spec_header(bytes@) == Ok::<(usize, isize), SynthrsError>((count, song.time_unit)),
            match spec_tracks(bytes@, pos as int, (count - i) as nat) {
                Ok(rest) => spec_tracks(bytes@, 14, count as nat) == Ok::<
                    Seq<TrackData>,
                    SynthrsError,
                >(tracks_view(song.tracks@) + rest),
                Err(e) => spec_tracks(bytes@, 14, count as nat) == Err::<
                    Seq<TrackData>,
                    SynthrsError,
                >(e),
            },
        decreases count - i,
    {
        let (track, next) = match read_midi_track(bytes, pos) {
            Ok(pair) => pair,
            Err(e) => {
                return Err(e);
            },
        };
        let ghost sofar = tracks_view(song.tracks@);
        song.tracks.push(track);
        proof {
            assert(tracks_view(song.tracks@) =~= sofar.push(track@));
            if let Ok(rest) = spec_tracks(bytes@, next as int, (count - i - 1) as nat) {
                assert(sofar + (seq![track@] + rest) =~= sofar.push(track@) + rest);
            }
        }
        pos = next;
        i = i + 1;
    }
    assert(tracks_view(song.tracks@) + Seq::<TrackData>::empty() =~= tracks_view(song.tracks@));
    song.max_time = find_max_time(&song.tracks);
    song.tempo = match find_tempo(&song.tracks) {
        Some(t) => t,
        None => DEFAULT_TEMPO,
    };
    Ok(song)
}

} // verus!
