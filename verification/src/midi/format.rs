//! The Standard MIDI File format as mathematical functions on byte sequences.
//!
//! A track is a run of messages, each a delta time followed by an optional
//! status byte and the message's data. These functions say what every byte
//! sequence decodes to; the executable decoder is proved to compute them.

use crate::endian::be32;
use crate::errors::{ParseErrorKind, SynthrsError};
use crate::midi::vlq::spec_read_variable_number;
use crate::endian::be16;
use crate::midi::{
    EventType, MetaEventType, MidiEvent, SongData, SystemEventType, TrackData, DEFAULT_TEMPO,
};
use vstd::prelude::*;

verus! {

/// Where a track decoder stands between two messages.
pub struct DecoderState {
    /// Position of the next unread byte.
    pub pos: int,
    /// Tick reached so far.
    pub time: usize,
    /// Kind and channel of the most recent status byte.
    pub running: Option<(EventType, u8)>,
    /// Whether the last message was read without a status byte of its own.
    pub is_running: bool,
    /// Whether the end-of-track message has been read.
    pub end_of_track: bool,
}

impl DecoderState {
    /// The state at the first message of a track whose events start at `pos`.
    pub open spec fn start(pos: int) -> DecoderState {
        DecoderState { pos, time: 0, running: None, is_running: false, end_of_track: false }
    }

    /// This state moved to another position.
    pub open spec fn at(self, pos: int) -> DecoderState {
        DecoderState { pos, ..self }
    }
}

/// What decoding one message gives: the state after it and the event it
/// yields, if it yields one.
pub type Decoded = Result<(DecoderState, Option<MidiEvent>), SynthrsError>;

/// The kind that a status byte announces: the one whose code is its high nibble.
pub open spec fn status_kind(status: u8) -> EventType
    recommends
        status >= 0x80,
{
    choose|t: EventType| t.code() == status / 16
}

/// Three bytes from `at`, most significant first, as one number.
pub open spec fn be24(bytes: Seq<u8>, at: int) -> int
    recommends
        0 <= at,
        at + 3 <= bytes.len(),
{
    bytes[at] as int * 0x1_0000 + bytes[at + 1] as int * 0x100 + bytes[at + 2] as int
}

/// Position of the first byte at or after `at` whose low nibble is 7, the low
/// nibble of the end-of-exclusive status; `None` if there is none.
pub open spec fn sysex_end(bytes: Seq<u8>, at: int) -> Option<int>
    decreases bytes.len() - at,
{
    if 0 <= at < bytes.len() {
        if bytes[at] % 16 == 7 {
            Some(at)
        } else {
            sysex_end(bytes, at + 1)
        }
    } else {
        None
    }
}

/// A channel message with `n` data bytes (1 or 2), read in state `s`, which
/// stands at the first data byte.
pub open spec fn spec_data_event(
    bytes: Seq<u8>,
    s: DecoderState,
    kind: EventType,
    channel: u8,
    n: nat,
) -> Decoded {
    if 0 <= s.pos && s.pos + n <= bytes.len() {
        Ok(
            (
                s.at(s.pos + n),
                Some(
                    MidiEvent {
                        event_type: kind,
                        system_event_type: None,
                        meta_event_type: None,
                        time: s.time,
                        channel: channel,
                        value1: bytes[s.pos] as usize,
                        value2: if n == 2 {
                            Some(bytes[s.pos + 1] as usize)
                        } else {
                            None
                        },
                    },
                ),
            ),
        )
    } else {
        Err(SynthrsError::eof())
    }
}

/// A meta message, read in state `s`, which stands at the type byte: a type,
/// a length as a variable-length quantity, and that many bytes of data.
///
/// End-of-track ends the track. A tempo message must carry exactly three
/// bytes, which form the event's `value1`. Every other message is skipped.
pub open spec fn spec_meta_event(bytes: Seq<u8>, s: DecoderState, channel: u8) -> Decoded {
    if !(0 <= s.pos < bytes.len()) {
        Err(SynthrsError::eof())
    } else {
        let kind = MetaEventType::spec_from_u8(bytes[s.pos]);
        match spec_read_variable_number(bytes, s.pos + 1) {
            None => Err(SynthrsError::eof()),
            Some((size, p)) => {
                if kind == Some(MetaEventType::EndOfTrack) {
                    Ok((DecoderState { pos: p, end_of_track: true, ..s }, None))
                } else if kind == Some(MetaEventType::TempoSetting) {
                    if size != 3 {
                        Err(SynthrsError::Parse(ParseErrorKind::BadTempoLength))
                    } else if !(p + 3 <= bytes.len()) {
                        Err(SynthrsError::eof())
                    } else {
                        Ok(
                            (
                                s.at(p + 3),
                                Some(
                                    MidiEvent {
                                        event_type: EventType::System,
                                        system_event_type: Some(
                                            SystemEventType::SystemResetOrMeta,
                                        ),
                                        meta_event_type: kind,
                                        time: s.time,
                                        channel: channel,
                                        value1: be24(bytes, p) as usize,
                                        value2: None,
                                    },
                                ),
                            ),
                        )
                    }
                } else if p + size <= bytes.len() {
                    Ok((s.at(p + size), None))
                } else {
                    Err(SynthrsError::eof())
                }
            },
        }
    }
}

/// A system message whose status has low nibble `channel`, read in state `s`,
/// which stands just after the status.
pub open spec fn spec_system_event(bytes: Seq<u8>, s: DecoderState, channel: u8) -> Decoded {
    match SystemEventType::spec_from_u8(channel) {
        None => Err(SynthrsError::Parse(ParseErrorKind::UnknownSystemEvent)),
        Some(SystemEventType::SystemExclusive) => match sysex_end(bytes, s.pos) {
            Some(q) => Ok((s.at(q + 1), None)),
            None => Err(SynthrsError::eof()),
        },
        Some(SystemEventType::EndOfSystemExclusive) => Err(
            SynthrsError::Parse(ParseErrorKind::UnexpectedEndOfSysex),
        ),
        Some(SystemEventType::SongPositionPointer) | Some(SystemEventType::SongSelect) => {
            if 0 <= s.pos && s.pos + 2 <= bytes.len() {
                Ok((s.at(s.pos + 2), None))
            } else {
                Err(SynthrsError::eof())
            }
        },
        Some(SystemEventType::SystemResetOrMeta) => spec_meta_event(bytes, s, channel),
        Some(_) => Ok((s, None)),
    }
}

/// One message read in state `s`: a delta time, then either a status byte or,
/// where the next byte has its top bit clear, the status of the message
/// before (running status), then the data that the status calls for.
pub open spec fn spec_step(bytes: Seq<u8>, s: DecoderState) -> Decoded {
    match spec_read_variable_number(bytes, s.pos) {
        None => Err(SynthrsError::eof()),
        Some((delta, p)) => {
            if s.time + delta > usize::MAX {
                Err(SynthrsError::Parse(ParseErrorKind::TickOverflow))
            } else if !(p < bytes.len()) {
                Err(SynthrsError::eof())
            } else {
                let fresh = bytes[p] >= 0x80;
                let running = if fresh {
                    Some((status_kind(bytes[p]), bytes[p] % 16))
                } else {
                    s.running
                };
                let after = DecoderState {
                    pos: if fresh {
                        p + 1
                    } else {
                        p
                    },
                    time: (s.time + delta) as usize,
                    running: running,
                    is_running: !fresh,
                    end_of_track: s.end_of_track,
                };
                match running {
                    None => Err(SynthrsError::Parse(ParseErrorKind::MissingStatus)),
                    Some((kind, channel)) => match kind.data_bytes() {
                        Some(n) => spec_data_event(bytes, after, kind, channel, n),
                        None => spec_system_event(bytes, after, channel),
                    },
                }
            }
        },
    }
}

/// The end of a system-exclusive message lies inside the input, at or after
/// the start of the search.
pub proof fn lemma_sysex_end_bounds(bytes: Seq<u8>, at: int)
    ensures
        sysex_end(bytes, at) matches Some(q) ==> 0 <= at <= q < bytes.len() && bytes[q] % 16 == 7,
    decreases bytes.len() - at,
{
    if 0 <= at < bytes.len() && bytes[at] % 16 != 7 {
        lemma_sysex_end_bounds(bytes, at + 1);
    }
}

/// Every message takes at least one byte and ends inside the input.
pub proof fn lemma_step_advances(bytes: Seq<u8>, s: DecoderState)
    ensures
        spec_step(bytes, s) matches Ok((next, _)) ==> 0 <= s.pos < next.pos <= bytes.len(),
{
    crate::midi::vlq::lemma_vlq_from_bounds(bytes, s.pos, 0);
    if let Some((delta, p)) = spec_read_variable_number(bytes, s.pos) {
        if s.time + delta <= usize::MAX && p < bytes.len() {
            let fresh = bytes[p] >= 0x80;
            let q = if fresh {
                p + 1
            } else {
                p
            };
            lemma_sysex_end_bounds(bytes, q);
            crate::midi::vlq::lemma_vlq_from_bounds(bytes, q + 1, 0);
        }
    }
}

/// What asking a decoder in state `s` for its next event gives: the answer and
/// the state afterwards.
///
/// Messages that yield no event are passed over. The answer is `None` once
/// the end of the track has been read. An error leaves the state at the
/// message that failed.
pub open spec fn spec_next(bytes: Seq<u8>, s: DecoderState) -> (
    Option<Result<MidiEvent, SynthrsError>>,
    DecoderState,
)
    decreases bytes.len() - s.pos,
    via spec_next_decreases
{
    if s.end_of_track {
        (None, s)
    } else {
        match spec_step(bytes, s) {
            Err(e) => (Some(Err(e)), s),
            Ok((after, Some(event))) => (Some(Ok(event)), after),
            Ok((after, None)) => spec_next(bytes, after),
        }
    }
}

#[via_fn]
proof fn spec_next_decreases(bytes: Seq<u8>, s: DecoderState) {
    lemma_step_advances(bytes, s);
}

/// Asking for an event never moves a decoder backwards, and moves it forwards
/// whenever an event comes.
pub proof fn lemma_next_advances(bytes: Seq<u8>, s: DecoderState)
    ensures
        spec_next(bytes, s).0 matches Some(Ok(_)) ==> 0 <= s.pos < spec_next(bytes, s).1.pos
            <= bytes.len(),
        spec_next(bytes, s).0 is None ==> spec_next(bytes, s).1.end_of_track,
        spec_next(bytes, s).0 is None && !s.end_of_track ==> 0 <= s.pos < spec_next(bytes, s).1.pos
            <= bytes.len(),
        s.pos <= spec_next(bytes, s).1.pos || spec_next(bytes, s).1 == s,
    decreases bytes.len() - s.pos,
{
    if !s.end_of_track {
        lemma_step_advances(bytes, s);
        if let Ok((after, None)) = spec_step(bytes, s) {
            lemma_next_advances(bytes, after);
        }
    }
}

/// All events that a decoder started in state `s` yields up to the end of the
/// track, and the state in which it stops; the first error, if one occurs.
pub open spec fn spec_events(bytes: Seq<u8>, s: DecoderState) -> Result<
    (Seq<MidiEvent>, DecoderState),
    SynthrsError,
>
    decreases bytes.len() - s.pos,
    via spec_events_decreases
{
    match spec_next(bytes, s) {
        (None, after) => Ok((Seq::<MidiEvent>::empty(), after)),
        (Some(Err(e)), _) => Err(e),
        (Some(Ok(event)), after) => match spec_events(bytes, after) {
            Err(e) => Err(e),
            Ok((rest, last)) => Ok((seq![event] + rest, last)),
        },
    }
}

#[via_fn]
proof fn spec_events_decreases(bytes: Seq<u8>, s: DecoderState) {
    lemma_next_advances(bytes, s);
}

/// The `max_time` of a track with these events: the tick of the last one, or
/// 0 where there are fewer than two.
pub open spec fn track_max_time(events: Seq<MidiEvent>) -> usize {
    if events.len() > 1 {
        events.last().time
    } else {
        0
    }
}

/// The tag `MThd` as a big-endian number.
pub const HEADER_TAG: u32 = 0x4d54_6864;

/// The tag `MTrk` as a big-endian number.
pub const TRACK_TAG: u32 = 0x4d54_726b;

/// The four bytes from `at` as a big-endian number.
pub open spec fn be32_at(bytes: Seq<u8>, at: int) -> int {
    be32(bytes.subrange(at, at + 4))
}

/// The two bytes from `at` as a big-endian number.
pub open spec fn be16_at(bytes: Seq<u8>, at: int) -> int {
    be16(bytes.subrange(at, at + 2))
}

/// The track chunk that starts at `at`: the tag `MTrk`, four bytes of chunk
/// size, and the events up to the end-of-track message. The declared size is
/// not consulted. Gives the track and the position after its last message.
pub open spec fn spec_track(bytes: Seq<u8>, at: int) -> Result<(TrackData, int), SynthrsError> {
    if !(0 <= at && at + 4 <= bytes.len()) {
        Err(SynthrsError::eof())
    } else if be32_at(bytes, at) != TRACK_TAG {
        Err(SynthrsError::Parse(ParseErrorKind::BadTrackTag))
    } else if !(at + 8 <= bytes.len()) {
        Err(SynthrsError::eof())
    } else {
        match spec_events(bytes, DecoderState::start(at + 8)) {
            Err(e) => Err(e),
            Ok((events, last)) => Ok(
                (TrackData { events: events, max_time: track_max_time(events) }, last.pos),
            ),
        }
    }
}

/// `n` track chunks, one after the other, from `at`.
pub open spec fn spec_tracks(bytes: Seq<u8>, at: int, n: nat) -> Result<
    Seq<TrackData>,
    SynthrsError,
>
    decreases n,
{
    if n == 0 {
        Ok(Seq::<TrackData>::empty())
    } else {
        match spec_track(bytes, at) {
            Err(e) => Err(e),
            Ok((track, next)) => match spec_tracks(bytes, next, (n - 1) as nat) {
                Err(e) => Err(e),
                Ok(rest) => Ok(seq![track] + rest),
            },
        }
    }
}

/// The header chunk: the tag `MThd`, the length 6, a format word that is
/// passed over, the track count and the time division, which must be in
/// ticks per quarter note. Gives the track count and the time division.
pub open spec fn spec_header(bytes: Seq<u8>) -> Result<(usize, isize), SynthrsError> {
    if bytes.len() < 4 {
        Err(SynthrsError::eof())
    } else if be32_at(bytes, 0) != HEADER_TAG {
        Err(SynthrsError::Parse(ParseErrorKind::BadHeaderTag))
    } else if bytes.len() < 8 {
        Err(SynthrsError::eof())
    } else if be32_at(bytes, 4) != 6 {
        Err(SynthrsError::Parse(ParseErrorKind::BadHeaderLength))
    } else if bytes.len() < 14 {
        Err(SynthrsError::eof())
    } else if be16_at(bytes, 12) >= 0x8000 {
        Err(SynthrsError::Parse(ParseErrorKind::SmpteTimeDivision))
    } else {
        Ok((be16_at(bytes, 10) as usize, be16_at(bytes, 12) as isize))
    }
}

/// The largest `max_time` among tracks; 0 for none.
pub open spec fn song_max_time(tracks: Seq<TrackData>) -> usize
    decreases tracks.len(),
{
    if tracks.len() == 0 {
        0
    } else {
        let before = song_max_time(tracks.drop_last());
        if tracks.last().max_time > before {
            tracks.last().max_time
        } else {
            before
        }
    }
}

/// Whether an event sets the tempo.
pub open spec fn is_tempo(event: MidiEvent) -> bool {
    event.meta_event_type == Some(MetaEventType::TempoSetting)
}

/// The tempo that the first tempo event among `events` sets, if there is one.
pub open spec fn track_tempo(events: Seq<MidiEvent>) -> Option<usize>
    decreases events.len(),
{
    if events.len() == 0 {
        None
    } else if is_tempo(events.first()) {
        Some(events.first().value1)
    } else {
        track_tempo(events.drop_first())
    }
}

/// The tempo that the first tempo event of the first track that has one sets.
pub open spec fn first_tempo(tracks: Seq<TrackData>) -> Option<usize>
    decreases tracks.len(),
{
    if tracks.len() == 0 {
        None
    } else {
        match track_tempo(tracks.first().events) {
            Some(t) => Some(t),
            None => first_tempo(tracks.drop_first()),
        }
    }
}

/// The song that a whole file decodes to: the header, then as many tracks as
/// it declares. Bytes after the last track are not looked at.
pub open spec fn spec_read_midi(bytes: Seq<u8>) -> Result<SongData, SynthrsError> {
    match spec_header(bytes) {
        Err(e) => Err(e),
        Ok((track_count, time_unit)) => match spec_tracks(bytes, 14, track_count as nat) {
            Err(e) => Err(e),
            Ok(tracks) => Ok(
                SongData {
                    max_time: song_max_time(tracks),
                    time_unit: time_unit,
                    tracks: tracks,
                    track_count: track_count,
                    tempo: match first_tempo(tracks) {
                        Some(t) => t,
                        None => DEFAULT_TEMPO,
                    },
                },
            ),
        },
    }
}

} // verus!
