//! Laws of the track format: what encodings of channel events decode to.

use crate::midi::format::{
    first_tempo, is_tempo, lemma_next_advances, lemma_step_advances, song_max_time, spec_events,
    spec_header, spec_meta_event, spec_next, spec_read_midi, spec_step, spec_system_event,
    spec_track, spec_tracks, status_kind, track_max_time, track_tempo, DecoderState,
};
use crate::midi::vlq::{
    lemma_variable_number_round_trip, spec_read_variable_number, spec_write_variable_number,
};
use crate::midi::{
    EventType, MetaEventType, MidiEvent, SongData, SystemEventType, TrackData, DEFAULT_TEMPO,
};
use vstd::prelude::*;

verus! {

/// Whether an event is a channel message as a file can carry it: of a kind
/// other than system, on one of the 16 channels, with as many data bytes as
/// its kind has, each of seven bits.
pub open spec fn is_channel_event(e: MidiEvent) -> bool {
    &&& e.system_event_type is None
    &&& e.meta_event_type is None
    &&& e.channel < 16
    &&& e.value1 < 128
    &&& match e.event_type.data_bytes() {
        Some(n) => if n == 2 {
            e.value2 matches Some(v) && v < 128
        } else {
            e.value2 is None
        },
        None => false,
    }
}

/// Whether no event comes before an event that precedes it.
pub open spec fn in_time_order(events: Seq<MidiEvent>) -> bool {
    forall|i: int, j: int|
        0 <= i <= j < events.len() ==> (#[trigger] events[i]).time <= (#[trigger] events[j]).time
}

/// Whether all events are channel messages and they stand in time order.
pub open spec fn is_channel_track(events: Seq<MidiEvent>) -> bool {
    &&& forall|i: int| 0 <= i < events.len() ==> is_channel_event(#[trigger] events[i])
    &&& in_time_order(events)
}

/// The status byte of a channel message: kind in the high nibble, channel in
/// the low one.
pub open spec fn status_byte(e: MidiEvent) -> u8 {
    (e.event_type.code() * 16 + e.channel) as u8
}

/// The data bytes of a channel message.
pub open spec fn data_of(e: MidiEvent) -> Seq<u8> {
    match e.value2 {
        Some(v) => seq![e.value1 as u8, v as u8],
        None => seq![e.value1 as u8],
    }
}

/// The tick before event `i`: that of its predecessor, or 0 for the first.
pub open spec fn time_before(events: Seq<MidiEvent>, i: int) -> usize {
    if i <= 0 {
        0
    } else {
        events[i - 1].time
    }
}

/// Whether event `i` has the status byte of its predecessor, so that running
/// status may leave its own out.
pub open spec fn shares_status(events: Seq<MidiEvent>, i: int) -> bool {
    0 < i < events.len() && status_byte(events[i]) == status_byte(events[i - 1])
}

/// The bytes of event `i`: its delta time as a shortest variable-length
/// quantity, its status byte, and its data. With `running` the status byte
/// is left out wherever the event shares that of its predecessor.
pub open spec fn encode_message(events: Seq<MidiEvent>, i: int, running: bool) -> Seq<u8> {
    spec_write_variable_number((events[i].time - time_before(events, i)) as nat) + (if running
        && shares_status(events, i) {
        Seq::<u8>::empty()
    } else {
        seq![status_byte(events[i])]
    }) + data_of(events[i])
}

/// The end-of-track message at delta time 0.
pub open spec fn end_of_track_bytes() -> Seq<u8> {
    seq![0x00u8, 0xffu8, 0x2fu8, 0x00u8]
}

/// The bytes of the events from `i` on, closed by the end-of-track message.
pub open spec fn encode_from(events: Seq<MidiEvent>, i: int, running: bool) -> Seq<u8>
    decreases events.len() - i,
{
    if 0 <= i < events.len() {
        encode_message(events, i, running) + encode_from(events, i + 1, running)
    } else {
        end_of_track_bytes()
    }
}

/// The event stream of a track of these events: with a status byte on every
/// event, or with running status wherever consecutive events share one.
pub open spec fn encode_track(events: Seq<MidiEvent>, running: bool) -> Seq<u8> {
    encode_from(events, 0, running)
}

/// The state of a decoder that has read the events before `i` of such a
/// stream and stands at `pos`.
pub open spec fn state_before(events: Seq<MidiEvent>, i: int, pos: int, running: bool)
    -> DecoderState {
    DecoderState {
        pos: pos,
        time: time_before(events, i),
        running: if i <= 0 {
            None
        } else {
            Some((events[i - 1].event_type, events[i - 1].channel))
        },
        is_running: running && shares_status(events, i - 1),
        end_of_track: false,
    }
}

/// Whether `part` stands in `bytes` at `at`.
pub open spec fn holds_at(bytes: Seq<u8>, at: int, part: Seq<u8>) -> bool {
    0 <= at && at + part.len() <= bytes.len() && bytes.subrange(at, at + part.len()) == part
}

/// A part of a part stands where the whole puts it.
proof fn lemma_holds_inside(bytes: Seq<u8>, at: int, whole: Seq<u8>, from: int, to: int)
    requires
        holds_at(bytes, at, whole),
        0 <= from <= to <= whole.len(),
    ensures
        holds_at(bytes, at + from, whole.subrange(from, to)),
        forall|k: int| from <= k < to ==> bytes[at + k] == whole[k],
{
    assert(bytes.subrange(at + from, at + to) =~= whole.subrange(from, to)) by {
        assert forall|k: int| 0 <= k < to - from implies bytes.subrange(at + from, at + to)[k]
            == whole.subrange(from, to)[k] by {
            assert(bytes.subrange(at, at + whole.len())[from + k] == whole[from + k]);
        }
    }
    assert forall|k: int| from <= k < to implies bytes[at + k] == whole[k] by {
        assert(bytes.subrange(at, at + whole.len())[k] == whole[k]);
    }
}

/// The kind of a status byte is the kind that the byte was made of.
proof fn lemma_status_byte(e: MidiEvent)
    requires
        e.channel < 16,
    ensures
        status_byte(e) >= 0x80,
        status_kind(status_byte(e)) == e.event_type,
        status_byte(e) % 16 == e.channel,
{
    let b = status_byte(e);
    assert(8 <= e.event_type.code() <= 15);
    assert(b / 16 == e.event_type.code());
    let t = status_kind(b);
    assert(t.code() == b / 16);
}

/// Equal status bytes announce equal kinds on equal channels.
proof fn lemma_status_byte_injective(a: MidiEvent, b: MidiEvent)
    requires
        a.channel < 16,
        b.channel < 16,
        status_byte(a) == status_byte(b),
    ensures
        a.event_type == b.event_type,
        a.channel == b.channel,
{
    lemma_status_byte(a);
    lemma_status_byte(b);
}

/// One message of the stream decodes to its event and leaves the decoder
/// ready for the next.
proof fn lemma_decode_message(
    bytes: Seq<u8>,
    events: Seq<MidiEvent>,
    i: int,
    pos: int,
    running: bool,
)
    requires
        is_channel_track(events),
        0 <= i < events.len(),
        holds_at(bytes, pos, encode_message(events, i, running)),
    ensures
        spec_step(bytes, state_before(events, i, pos, running)) == Ok::<
            (DecoderState, Option<MidiEvent>),
            crate::errors::SynthrsError,
        >(
            (
                state_before(
                    events,
                    i + 1,
                    pos + encode_message(events, i, running).len(),
                    running,
                ),
                Some(events[i]),
            ),
        ),
{
    let e = events[i];
    let s = state_before(events, i, pos, running);
    let msg = encode_message(events, i, running);
    let delta = (e.time - time_before(events, i)) as nat;
    let vlq = spec_write_variable_number(delta);
    let omit = running && shares_status(events, i);
    let status = if omit {
        Seq::<u8>::empty()
    } else {
        seq![status_byte(e)]
    };
    let data = data_of(e);
    assert(is_channel_event(e));
    if i > 0 {
        assert(events[i - 1].time <= events[i].time);
        assert(is_channel_event(events[i - 1]));
    }
    assert(msg == vlq + status + data);
    let n = vlq.len() as int;
    let m = status.len() as int;
    assert(msg.subrange(0, n) =~= vlq);
    lemma_holds_inside(bytes, pos, msg, 0, n);
    lemma_holds_inside(bytes, pos, msg, n, msg.len() as int);
    lemma_variable_number_round_trip(bytes, pos, delta as usize);
    assert(spec_read_variable_number(bytes, pos) == Some((delta as usize, pos + n)));
    lemma_status_byte(e);
    let p = pos + n;
    if omit {
        lemma_status_byte_injective(e, events[i - 1]);
        assert(bytes[p] == msg[n]);
        assert(msg[n] == data[0]);
        assert(data[0] == e.value1 as u8);
        assert(bytes[p] < 0x80);
    } else {
        assert(bytes[p] == msg[n]);
        assert(msg[n] == status_byte(e));
    }
    let q = p + m;
    assert(bytes[q] == msg[n + m]);
    assert(msg[n + m] == data[0]);
    if e.value2 is Some {
        assert(bytes[q + 1] == msg[n + m + 1]);
        assert(msg[n + m + 1] == data[1]);
    }
}

/// The state in which a decoder stops that met the end-of-track message in
/// state `s`.
pub open spec fn state_at_end(s: DecoderState) -> DecoderState {
    DecoderState {
        pos: s.pos + 4,
        time: s.time,
        running: Some((EventType::System, 15u8)),
        is_running: false,
        end_of_track: true,
    }
}

/// The end-of-track message read as a meta message.
proof fn lemma_end_as_meta(bytes: Seq<u8>, s: DecoderState)
    requires
        0 <= s.pos,
        s.pos + 2 <= bytes.len(),
        bytes[s.pos] == 0x2f,
        bytes[s.pos + 1] == 0x00,
    ensures
        spec_meta_event(bytes, s, 15) == Ok::<
            (DecoderState, Option<MidiEvent>),
            crate::errors::SynthrsError,
        >((DecoderState { pos: s.pos + 2, end_of_track: true, ..s }, None)),
{
    let one = seq![0u8];
    assert(spec_write_variable_number(0) =~= one);
    assert(bytes.subrange(s.pos + 1, s.pos + 2) =~= one);
    lemma_variable_number_round_trip(bytes, s.pos + 1, 0);
    assert(MetaEventType::EndOfTrack.code() == 0x2f);
    assert(MetaEventType::spec_from_u8(0x2f) == Some(MetaEventType::EndOfTrack));
}

/// The end-of-track message read as a message.
proof fn lemma_end_as_step(bytes: Seq<u8>, s: DecoderState)
    requires
        holds_at(bytes, s.pos, end_of_track_bytes()),
    ensures
        spec_step(bytes, s) == Ok::<(DecoderState, Option<MidiEvent>), crate::errors::SynthrsError>(
            (DecoderState { end_of_track: true, ..state_at_end(s) }, None),
        ),
{
    let pos = s.pos;
    lemma_holds_inside(bytes, pos, end_of_track_bytes(), 0, 4);
    assert(bytes[pos] == 0x00 && bytes[pos + 1] == 0xff && bytes[pos + 2] == 0x2f && bytes[pos + 3]
        == 0x00);
    let one = seq![0u8];
    assert(spec_write_variable_number(0) =~= one);
    assert(bytes.subrange(pos, pos + 1) =~= one);
    lemma_variable_number_round_trip(bytes, pos, 0);
    assert(spec_read_variable_number(bytes, pos) == Some((0usize, pos + 1)));
    assert(EventType::System.code() == 0xffu8 / 16);
    assert(status_kind(0xffu8) == EventType::System);
    assert(SystemEventType::SystemResetOrMeta.code() == 15);
    assert(SystemEventType::spec_from_u8(15) == Some(SystemEventType::SystemResetOrMeta));
    let after_status = DecoderState {
        pos: pos + 2,
        time: s.time,
        running: Some((EventType::System, 15u8)),
        is_running: false,
        end_of_track: s.end_of_track,
    };
    lemma_end_as_meta(bytes, after_status);
    assert(spec_system_event(bytes, after_status, 15) == spec_meta_event(bytes, after_status, 15));
    assert(spec_step(bytes, s) == spec_system_event(bytes, after_status, 15));
}

/// A decoder that meets the end-of-track message stops there without an
/// event.
proof fn lemma_decode_end(bytes: Seq<u8>, s: DecoderState)
    requires
        !s.end_of_track,
        holds_at(bytes, s.pos, end_of_track_bytes()),
    ensures
        spec_events(bytes, s) == Ok::<(Seq<MidiEvent>, DecoderState), crate::errors::SynthrsError>(
            (Seq::<MidiEvent>::empty(), state_at_end(s)),
        ),
{
    let done = state_at_end(s);
    lemma_end_as_step(bytes, s);
    assert(spec_next(bytes, done) == (
        None::<Result<MidiEvent, crate::errors::SynthrsError>>,
        done,
    ));
    assert(spec_next(bytes, s) == spec_next(bytes, done));
}

/// The stream from event `i` on decodes to the events from `i` on.
proof fn lemma_decode_from(
    bytes: Seq<u8>,
    events: Seq<MidiEvent>,
    i: int,
    pos: int,
    running: bool,
)
    requires
        is_channel_track(events),
        0 <= i <= events.len(),
        holds_at(bytes, pos, encode_from(events, i, running)),
    ensures
        spec_events(bytes, state_before(events, i, pos, running)) matches Ok((decoded, last))
            && decoded == events.skip(i) && last.end_of_track && last.pos == pos + encode_from(
            events,
            i,
            running,
        ).len(),
    decreases events.len() - i,
{
    let s = state_before(events, i, pos, running);
    let code = encode_from(events, i, running);
    if i < events.len() {
        let msg = encode_message(events, i, running);
        let rest = encode_from(events, i + 1, running);
        assert(code == msg + rest);
        let n = msg.len() as int;
        assert(code.subrange(0, n) =~= msg);
        assert(code.subrange(n, code.len() as int) =~= rest);
        lemma_holds_inside(bytes, pos, code, 0, n);
        lemma_holds_inside(bytes, pos, code, n, code.len() as int);
        lemma_decode_message(bytes, events, i, pos, running);
        let after = state_before(events, i + 1, pos + n, running);
        lemma_decode_from(bytes, events, i + 1, pos + n, running);
        assert(spec_next(bytes, s) == (
            Some(Ok::<MidiEvent, crate::errors::SynthrsError>(events[i])),
            after,
        ));
        assert(seq![events[i]] + events.skip(i + 1) =~= events.skip(i));
    } else {
        lemma_decode_end(bytes, s);
        assert(events.skip(i) =~= Seq::<MidiEvent>::empty());
    }
}

/// Running status changes nothing in what a track decodes to.
///
/// Take any channel events in time order. Encoded with a status byte on
/// every event, and encoded with the status byte left out wherever an event
/// shares that of its predecessor, the track decodes to those very events,
/// and the decoder stops at the end of either encoding.
pub proof fn lemma_running_status_equivalence(events: Seq<MidiEvent>)
    requires
        is_channel_track(events),
    ensures
        spec_events(encode_track(events, false), DecoderState::start(0)) matches Ok((decoded, last))
            && decoded == events && last.pos == encode_track(events, false).len(),
        spec_events(encode_track(events, true), DecoderState::start(0)) matches Ok((decoded, last))
            && decoded == events && last.pos == encode_track(events, true).len(),
{
    let explicit = encode_track(events, false);
    let short = encode_track(events, true);
    assert(explicit.subrange(0, explicit.len() as int) =~= explicit);
    assert(short.subrange(0, short.len() as int) =~= short);
    lemma_decode_from(explicit, events, 0, 0, false);
    lemma_decode_from(short, events, 0, 0, true);
    assert(events.skip(0) =~= events);
    assert(state_before(events, 0, 0, false) == DecoderState::start(0));
    assert(state_before(events, 0, 0, true) == DecoderState::start(0));
}

/// A message never turns the clock back, and an event carries the tick at
/// which its message was read.
pub proof fn lemma_step_time(bytes: Seq<u8>, s: DecoderState)
    ensures
        spec_step(bytes, s) matches Ok((after, event)) ==> s.time <= after.time && (
        event matches Some(e) ==> e.time == after.time),
{
}

/// The event that a decoder yields next is not earlier than the decoder.
pub proof fn lemma_next_time(bytes: Seq<u8>, s: DecoderState)
    ensures
        s.time <= spec_next(bytes, s).1.time,
        spec_next(bytes, s).0 matches Some(Ok(e)) ==> e.time == spec_next(bytes, s).1.time,
    decreases bytes.len() - s.pos,
{
    if !s.end_of_track {
        lemma_step_advances(bytes, s);
        lemma_step_time(bytes, s);
        if let Ok((after, None)) = spec_step(bytes, s) {
            lemma_next_time(bytes, after);
        }
    }
}

/// The events of a track come in time order: none is earlier than the
/// decoder was at the start, and none earlier than an event before it.
pub proof fn lemma_events_in_time_order(bytes: Seq<u8>, s: DecoderState)
    ensures
        spec_events(bytes, s) matches Ok((events, last)) ==> {
            &&& forall|i: int| 0 <= i < events.len() ==> s.time <= (#[trigger] events[i]).time
            &&& in_time_order(events)
            &&& last.end_of_track
        },
    decreases bytes.len() - s.pos,
{
    lemma_next_advances(bytes, s);
    lemma_next_time(bytes, s);
    if let (Some(Ok(event)), after) = spec_next(bytes, s) {
        lemma_events_in_time_order(bytes, after);
        if let Ok((rest, last)) = spec_events(bytes, after) {
            let events = seq![event] + rest;
            assert forall|i: int| 0 <= i < events.len() implies s.time <= (
            #[trigger] events[i]).time by {
                if i > 0 {
                    assert(events[i] == rest[i - 1]);
                }
            }
            assert forall|i: int, j: int| 0 <= i <= j < events.len() implies (
            #[trigger] events[i]).time <= (#[trigger] events[j]).time by {
                if i > 0 {
                    assert(events[i] == rest[i - 1]);
                    assert(events[j] == rest[j - 1]);
                } else if j > 0 {
                    assert(events[j] == rest[j - 1]);
                }
            }
        }
    }
}

/// Whether a track is as a decoder leaves it: its events in time order and
/// its `max_time` the tick of the last of two or more events.
pub open spec fn track_wf(track: TrackData) -> bool {
    in_time_order(track.events) && track.max_time == track_max_time(track.events)
}

/// Whether a song is as the loader leaves it: as many tracks as the header
/// declared, a time division in ticks per quarter note, every track well
/// formed, `max_time` the largest of the tracks', and the tempo that of the
/// first tempo event in file order, or the default.
pub open spec fn song_wf(song: SongData) -> bool {
    &&& song.tracks.len() == song.track_count
    &&& song.track_count <= 0xffff
    &&& 0 <= song.time_unit <= 0x7fff
    &&& forall|t: int| 0 <= t < song.tracks.len() ==> track_wf(#[trigger] song.tracks[t])
    &&& song.max_time == song_max_time(song.tracks)
    &&& song.tempo == match first_tempo(song.tracks) {
        Some(tempo) => tempo,
        None => DEFAULT_TEMPO,
    }
}

/// Every decoded track is well formed and ends inside the input.
pub proof fn lemma_decoded_track_is_well_formed(bytes: Seq<u8>, at: int)
    ensures
        spec_track(bytes, at) matches Ok((track, next)) ==> track_wf(track) && at + 8 < next
            <= bytes.len(),
{
    if 0 <= at && at + 8 <= bytes.len() {
        let start = DecoderState::start(at + 8);
        lemma_events_in_time_order(bytes, start);
        lemma_events_end(bytes, start);
    }
}

/// Decoding a track to its end takes at least one message.
pub proof fn lemma_events_end(bytes: Seq<u8>, s: DecoderState)
    requires
        !s.end_of_track,
    ensures
        spec_events(bytes, s) matches Ok((_, last)) ==> 0 <= s.pos < last.pos <= bytes.len(),
    decreases bytes.len() - s.pos,
{
    lemma_next_advances(bytes, s);
    if let (Some(Ok(_)), after) = spec_next(bytes, s) {
        if after.end_of_track {
            assert(spec_next(bytes, after) == (
                None::<Result<MidiEvent, crate::errors::SynthrsError>>,
                after,
            ));
        } else {
            lemma_events_end(bytes, after);
        }
    }
}

/// As many tracks are decoded as were asked for, each well formed.
pub proof fn lemma_decoded_tracks(bytes: Seq<u8>, at: int, n: nat)
    ensures
        spec_tracks(bytes, at, n) matches Ok(tracks) ==> tracks.len() == n && forall|t: int|
            0 <= t < tracks.len() ==> track_wf(#[trigger] tracks[t]),
    decreases n,
{
    if n > 0 {
        lemma_decoded_track_is_well_formed(bytes, at);
        if let Ok((track, next)) = spec_track(bytes, at) {
            lemma_decoded_tracks(bytes, next, (n - 1) as nat);
            if let Ok(rest) = spec_tracks(bytes, next, (n - 1) as nat) {
                let tracks = seq![track] + rest;
                assert forall|t: int| 0 <= t < tracks.len() implies track_wf(
                    #[trigger] tracks[t],
                ) by {
                    if t > 0 {
                        assert(tracks[t] == rest[t - 1]);
                    }
                }
            }
        }
    }
}

/// Every song that the loader gives is well formed.
pub proof fn lemma_decoded_song_is_well_formed(bytes: Seq<u8>)
    ensures
        spec_read_midi(bytes) matches Ok(song) ==> song_wf(song),
{
    if let Ok((track_count, time_unit)) = spec_header(bytes) {
        lemma_decoded_tracks(bytes, 14, track_count as nat);
        let b = bytes.subrange(10, 12);
        assert(crate::endian::be16(b) <= 0xffff);
    }
}

/// A track's tempo is that of its first tempo event.
pub proof fn lemma_track_tempo_is_first(events: Seq<MidiEvent>, i: int)
    requires
        0 <= i < events.len(),
        is_tempo(events[i]),
        forall|j: int| 0 <= j < i ==> !is_tempo(#[trigger] events[j]),
    ensures
        track_tempo(events) == Some(events[i].value1),
    decreases i,
{
    if i > 0 {
        assert(!is_tempo(events[0]));
        let rest = events.drop_first();
        assert(rest[i - 1] == events[i]);
        assert forall|j: int| 0 <= j < i - 1 implies !is_tempo(#[trigger] rest[j]) by {
            assert(rest[j] == events[j + 1]);
        }
        lemma_track_tempo_is_first(rest, i - 1);
    }
}

/// A track without tempo events sets no tempo.
pub proof fn lemma_track_without_tempo(events: Seq<MidiEvent>)
    requires
        forall|j: int| 0 <= j < events.len() ==> !is_tempo(#[trigger] events[j]),
    ensures
        track_tempo(events) is None,
    decreases events.len(),
{
    if events.len() > 0 {
        assert(!is_tempo(events[0]));
        let rest = events.drop_first();
        assert forall|j: int| 0 <= j < rest.len() implies !is_tempo(#[trigger] rest[j]) by {
            assert(rest[j] == events[j + 1]);
        }
        lemma_track_without_tempo(rest);
    }
}

/// The first tempo event in file order decides, whatever comes after it.
///
/// If event `i` of track `k` sets the tempo, no event before it in that
/// track does, and no event of an earlier track does, then the tempo found
/// is that of this event. Tempo events after it, in this track or in later
/// ones, have no say.
pub proof fn lemma_first_tempo_decides(tracks: Seq<TrackData>, k: int, i: int)
    requires
        0 <= k < tracks.len(),
        0 <= i < tracks[k].events.len(),
        is_tempo(tracks[k].events[i]),
        forall|j: int| 0 <= j < i ==> !is_tempo(#[trigger] tracks[k].events[j]),
        forall|t: int, j: int|
            0 <= t < k && 0 <= j < tracks[t].events.len() ==> !is_tempo(
                #[trigger] tracks[t].events[j],
            ),
    ensures
        first_tempo(tracks) == Some(tracks[k].events[i].value1),
    decreases k,
{
    if k == 0 {
        lemma_track_tempo_is_first(tracks[0].events, i);
    } else {
        assert forall|j: int| 0 <= j < tracks[0].events.len() implies !is_tempo(
            #[trigger] tracks[0].events[j],
        ) by {}
        lemma_track_without_tempo(tracks[0].events);
        let rest = tracks.drop_first();
        assert(rest[k - 1] == tracks[k]);
        assert forall|t: int, j: int|
            0 <= t < k - 1 && 0 <= j < rest[t].events.len() implies !is_tempo(
            #[trigger] rest[t].events[j],
        ) by {
            assert(rest[t] == tracks[t + 1]);
        }
        lemma_first_tempo_decides(rest, k - 1, i);
    }
}

/// Tracks without tempo events set no tempo, so the song keeps the default.
pub proof fn lemma_no_tempo(tracks: Seq<TrackData>)
    requires
        forall|t: int, j: int|
            0 <= t < tracks.len() && 0 <= j < tracks[t].events.len() ==> !is_tempo(
                #[trigger] tracks[t].events[j],
            ),
    ensures
        first_tempo(tracks) is None,
    decreases tracks.len(),
{
    if tracks.len() > 0 {
        assert forall|j: int| 0 <= j < tracks[0].events.len() implies !is_tempo(
            #[trigger] tracks[0].events[j],
        ) by {}
        lemma_track_without_tempo(tracks[0].events);
        let rest = tracks.drop_first();
        assert forall|t: int, j: int|
            0 <= t < rest.len() && 0 <= j < rest[t].events.len() implies !is_tempo(
            #[trigger] rest[t].events[j],
        ) by {
            assert(rest[t] == tracks[t + 1]);
        }
        lemma_no_tempo(rest);
    }
}

/// A song's `max_time` is no less than that of any track, and is that of
/// one of its tracks unless it is 0.
pub proof fn lemma_song_max_time(tracks: Seq<TrackData>)
    ensures
        forall|t: int| 0 <= t < tracks.len() ==> (#[trigger] tracks[t]).max_time <= song_max_time(
            tracks,
        ),
        song_max_time(tracks) == 0 || exists|t: int|
            0 <= t < tracks.len() && (#[trigger] tracks[t]).max_time == song_max_time(tracks),
    decreases tracks.len(),
{
    if tracks.len() > 0 {
        let head = tracks.drop_last();
        lemma_song_max_time(head);
        assert forall|t: int| 0 <= t < tracks.len() implies (#[trigger] tracks[t]).max_time
            <= song_max_time(tracks) by {
            if t < head.len() {
                assert(head[t] == tracks[t]);
            }
        }
        if song_max_time(tracks) != 0 {
            if tracks.last().max_time > song_max_time(head) {
                assert(tracks[tracks.len() - 1].max_time == song_max_time(tracks));
            } else {
                let t = choose|t: int|
                    0 <= t < head.len() && (#[trigger] head[t]).max_time == song_max_time(head);
                assert(tracks[t] == head[t]);
            }
        }
    }
}

} // verus!
