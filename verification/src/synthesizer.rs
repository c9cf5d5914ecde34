//! Note scheduling: which notes sound at which tick of a song.

use crate::errors::{ParseErrorKind, SynthrsError};
use crate::midi::{
    tracks_view, EventType, MidiEvent, MidiSong, MidiTrack, SongData, TrackData,
};
use vstd::prelude::*;

verus! {

/// One note sounding at one tick.
#[derive(PartialEq, Eq, Structural, Clone, Copy, Debug)]
pub struct NoteActivation {
    /// MIDI note number.
    pub note: u8,
    pub velocity: u8,
    /// Tick at which the note was struck.
    pub start_tick: usize,
    /// Tick that this activation belongs to.
    pub tick: usize,
    /// Ticks from this one to the note's end.
    pub ticks_left: usize,
}

/// Tick of the first event at or after index `from` that ends `note`: an
/// event on that note number that is note-terminating. A note that nothing
/// ends lasts to `max_time`.
pub open spec fn note_end_from(events: Seq<MidiEvent>, note: usize, from: int, max_time: usize)
    -> usize
    decreases events.len() - from,
{
    if 0 <= from < events.len() {
        if events[from].value1 == note && events[from].spec_is_note_terminating() {
            events[from].time
        } else {
            note_end_from(events, note, from + 1, max_time)
        }
    } else {
        max_time
    }
}

/// Tick at which the note struck by event `i` ends. The search starts at the
/// event itself, so a note-on of velocity 0 ends at once.
pub open spec fn note_end(events: Seq<MidiEvent>, i: int, max_time: usize) -> usize {
    note_end_from(events, events[i].value1, i, max_time)
}

/// Whether event `i` is a note-on whose note sounds at `tick`: from its own
/// tick up to, not including, the tick of its end.
pub open spec fn sounds_at(events: Seq<MidiEvent>, i: int, tick: int, max_time: usize) -> bool {
    events[i].event_type == EventType::NoteOn && events[i].time <= tick < note_end(
        events,
        i,
        max_time,
    )
}

/// The velocity of a note-on; 0 where the event carries none.
pub open spec fn velocity_of(event: MidiEvent) -> usize {
    match event.value2 {
        Some(v) => v,
        None => 0,
    }
}

/// The activation that event `i` contributes at `tick`. Note number and
/// velocity are kept as bytes.
pub open spec fn activation(events: Seq<MidiEvent>, i: int, tick: int, max_time: usize)
    -> NoteActivation {
    NoteActivation {
        note: (events[i].value1 % 256) as u8,
        velocity: (velocity_of(events[i]) % 256) as u8,
        start_tick: events[i].time,
        tick: tick as usize,
        ticks_left: (note_end(events, i, max_time) - tick) as usize,
    }
}

/// The activations at `tick` that the first `n` events of a track
/// contribute, in event order.
pub open spec fn track_notes_at(events: Seq<MidiEvent>, n: int, tick: int, max_time: usize) -> Seq<
    NoteActivation,
>
    decreases n,
{
    if n <= 0 {
        Seq::<NoteActivation>::empty()
    } else {
        let before = track_notes_at(events, n - 1, tick, max_time);
        if sounds_at(events, n - 1, tick, max_time) {
            before.push(activation(events, n - 1, tick, max_time))
        } else {
            before
        }
    }
}

/// The activations at `tick` that the first `k` tracks contribute: track
/// after track, each in event order.
pub open spec fn song_notes_at(tracks: Seq<TrackData>, k: int, tick: int, max_time: usize) -> Seq<
    NoteActivation,
>
    decreases k,
{
    if k <= 0 {
        Seq::<NoteActivation>::empty()
    } else {
        song_notes_at(tracks, k - 1, tick, max_time) + track_notes_at(
            tracks[k - 1].events,
            tracks[k - 1].events.len() as int,
            tick,
            max_time,
        )
    }
}

/// Whether an activation belongs to `tick`: it carries that tick, was struck
/// at or before it, and has at least this tick left to sound.
pub open spec fn sounds_in(a: NoteActivation, tick: int) -> bool {
    a.tick == tick && a.start_tick <= tick && a.ticks_left >= 1
}

/// Every activation that a track contributes at a tick belongs to that tick.
pub proof fn lemma_track_notes_sound(events: Seq<MidiEvent>, n: int, tick: int, max_time: usize)
    requires
        0 <= tick <= usize::MAX,
        n <= events.len(),
    ensures
        forall|i: int|
            0 <= i < track_notes_at(events, n, tick, max_time).len() ==> sounds_in(
                #[trigger] track_notes_at(events, n, tick, max_time)[i],
                tick,
            ),
    decreases n,
{
    if n > 0 {
        lemma_track_notes_sound(events, n - 1, tick, max_time);
        let before = track_notes_at(events, n - 1, tick, max_time);
        let all = track_notes_at(events, n, tick, max_time);
        assert forall|i: int| 0 <= i < all.len() implies sounds_in(#[trigger] all[i], tick) by {
            if i < before.len() {
                assert(all[i] == before[i]);
            } else {
                assert(sounds_at(events, n - 1, tick, max_time));
                assert(all[i] == activation(events, n - 1, tick, max_time));
            }
        }
    }
}

/// Every activation in the bucket of a tick belongs to that tick.
pub proof fn lemma_song_notes_sound(tracks: Seq<TrackData>, k: int, tick: int, max_time: usize)
    requires
        0 <= tick <= usize::MAX,
        k <= tracks.len(),
    ensures
        forall|i: int|
            0 <= i < song_notes_at(tracks, k, tick, max_time).len() ==> sounds_in(
                #[trigger] song_notes_at(tracks, k, tick, max_time)[i],
                tick,
            ),
    decreases k,
{
    if k > 0 {
        lemma_song_notes_sound(tracks, k - 1, tick, max_time);
        lemma_track_notes_sound(
            tracks[k - 1].events,
            tracks[k - 1].events.len() as int,
            tick,
            max_time,
        );
        let before = song_notes_at(tracks, k - 1, tick, max_time);
        let added = track_notes_at(
            tracks[k - 1].events,
            tracks[k - 1].events.len() as int,
            tick,
            max_time,
        );
        let all = song_notes_at(tracks, k, tick, max_time);
        assert forall|i: int| 0 <= i < all.len() implies sounds_in(#[trigger] all[i], tick) by {
            if i < before.len() {
                assert(all[i] == before[i]);
            } else {
                assert(all[i] == added[i - before.len()]);
            }
        }
    }
}

/// Tick at which the note struck by event `i` of `events` ends.
pub fn find_note_end(events: &Vec<MidiEvent>, i: usize, max_time: usize) -> (end: usize)
    requires
        i < events@.len(),
    ensures
        end == note_end(events@, i as int, max_time),
{
    let note: usize = events[i].value1;
    let n: usize = events.len();
    let mut j: usize = i;
    while j < n
        invariant
            n == events@.len(),
            i <= j <= n,
            note == events@[i as int].value1,
            note_end(events@, i as int, max_time) == note_end_from(
                events@,
                note,
                j as int,
                max_time,
            ),
        decreases n - j,
    {
        let event_cursor: MidiEvent = events[j];
        if event_cursor.value1 == note && event_cursor.is_note_terminating() {
            return event_cursor.time;
        }
        j = j + 1;
    }
    max_time
}

/// Enters the note struck by event `i` into the bucket of every tick at
/// which it sounds.
fn sound_note(
    table: &mut Vec<Vec<NoteActivation>>,
    events: &Vec<MidiEvent>,
    i: usize,
    max_time: usize,
)
    requires
        i < events@.len(),
        events@[i as int].event_type == EventType::NoteOn,
        old(table)@.len() == max_time,
    ensures
        final(table)@.len() == max_time,
        forall|t: int|
            0 <= t < max_time ==> #[trigger] final(table)@[t]@ == if sounds_at(
                events@,
                i as int,
                t,
                max_time,
            ) {
                old(table)@[t]@.push(activation(events@, i as int, t, max_time))
            } else {
                old(table)@[t]@
            },
{
    let event: MidiEvent = events[i];
    let start_tick: usize = event.time;
    let note: usize = event.value1;
    let velocity: usize = match event.value2 {
        Some(v) => v,
        None => 0,
    };
    let end_tick: usize = find_note_end(events, i, max_time);
    let stop: usize = if end_tick < max_time {
        end_tick
    } else {
        max_time
    };
    let mut tick: usize = start_tick;
    while tick < stop
        invariant
            start_tick <= tick,
            tick <= stop || tick == start_tick,
            i < events@.len(),
            stop <= max_time,
            stop <= end_tick,
            table@.len() == max_time,
            event == events@[i as int],
            start_tick == event.time,
            note == event.value1,
            velocity == velocity_of(event),
            end_tick == note_end(events@, i as int, max_time),
            forall|t: int|
                0 <= t < max_time ==> #[trigger] table@[t]@ == if start_tick <= t < tick {
                    old(table)@[t]@.push(activation(events@, i as int, t, max_time))
                } else {
                    old(table)@[t]@
                },
        decreases stop - tick,
    {
        let entry = NoteActivation {
            note: (note % 256) as u8,
            velocity: (velocity % 256) as u8,
            start_tick: start_tick,
            tick: tick,
            ticks_left: end_tick - tick,
        };
        table[tick].push(entry);
        tick = tick + 1;
    }
}

/// Enters every note of a track into the table.
fn sound_track(table: &mut Vec<Vec<NoteActivation>>, track: &MidiTrack, max_time: usize)
    requires
        old(table)@.len() == max_time,
    ensures
        final(table)@.len() == max_time,
        forall|t: int|
            0 <= t < max_time ==> #[trigger] final(table)@[t]@ == old(table)@[t]@ + track_notes_at(
                track.events@,
                track.events@.len() as int,
                t,
                max_time,
            ),
{
    let n: usize = track.events.len();
    let mut i: usize = 0;
    assert forall|t: int| 0 <= t < max_time implies #[trigger] table@[t]@ == old(table)@[t]@
        + track_notes_at(track.events@, 0, t, max_time) by {
        assert(old(table)@[t]@ + Seq::<NoteActivation>::empty() =~= old(table)@[t]@);
    }
    while i < n
        invariant
            n == track.events@.len(),
            i <= n,
            table@.len() == max_time,
            forall|t: int|
                0 <= t < max_time ==> #[trigger] table@[t]@ == old(table)@[t]@ + track_notes_at(
                    track.events@,
                    i as int,
                    t,
                    max_time,
                ),
        decreases n - i,
    {
        let ghost before = table@;
        let event: MidiEvent = track.events[i];
        if event.event_type == EventType::NoteOn {
            sound_note(table, &track.events, i, max_time);
        }
        assert forall|t: int| 0 <= t < max_time implies #[trigger] table@[t]@ == old(table)@[t]@
            + track_notes_at(track.events@, i + 1, t, max_time) by {
            let sofar = track_notes_at(track.events@, i as int, t, max_time);
            assert(before[t]@ == old(table)@[t]@ + sofar);
            if sounds_at(track.events@, i as int, t, max_time) {
                let a = activation(track.events@, i as int, t, max_time);
                assert((old(table)@[t]@ + sofar).push(a) =~= old(table)@[t]@ + sofar.push(a));
            }
        }
        i = i + 1;
    }
}

/// The table of sounding notes: one bucket for every tick below the song's
/// `max_time`, holding an activation for each note that sounds at that tick.
///
/// A note sounds from the tick of its note-on up to, not including, the tick
/// of the first later event in its track that ends the same note number; a
/// note that nothing ends sounds to the end of the song. Notes struck again
/// while they sound are entered again. Within a bucket the activations stand
/// in file order: track after track, each in event order.
pub fn notes_on_for_ticks(song: &MidiSong) -> (table: Vec<Vec<NoteActivation>>)
    ensures
        table@.len() == song.max_time,
        forall|t: int|
            0 <= t < song.max_time ==> #[trigger] table@[t]@ == song_notes_at(
                song@.tracks,
                song@.tracks.len() as int,
                t,
                song.max_time,
            ),
{
    let max_time: usize = song.max_time;
    let mut table: Vec<Vec<NoteActivation>> = Vec::new();
    let mut t: usize = 0;
    while t < max_time
        invariant
            t <= max_time,
            table@.len() == t,
            forall|u: int| 0 <= u < t ==> #[trigger] table@[u]@ == Seq::<NoteActivation>::empty(),
        decreases max_time - t,
    {
        let bucket: Vec<NoteActivation> = Vec::new();
        table.push(bucket);
        t = t + 1;
    }
    let n: usize = song.tracks.len();
    let ghost tracks = tracks_view(song.tracks@);
    let mut k: usize = 0;
    while k < n
        invariant
            n == song.tracks@.len(),
            tracks == tracks_view(song.tracks@),
            k <= n,
            table@.len() == max_time,
            forall|u: int|
                0 <= u < max_time ==> #[trigger] table@[u]@ == song_notes_at(
                    tracks,
                    k as int,
                    u,
                    max_time,
                ),
        decreases n - k,
    {
        assert(tracks[k as int] == song.tracks@[k as int]@);
        sound_track(&mut table, &song.tracks[k], max_time);
        k = k + 1;
    }
    table
}

/// Microseconds in a second.
pub const MICROS: u128 = 1_000_000;

/// The samples that a song takes at `sample_rate` samples per second, as an
/// exact quotient: a tick lasts `tempo / time_unit` microseconds, the song
/// `max_time` ticks.
pub open spec fn spec_sample_count(song: SongData, sample_rate: usize) -> int {
    (sample_rate * song.max_time * song.tempo) / (MICROS * song.time_unit)
}

/// The tick in which sample `i` falls at `sample_rate` samples per second, as
/// an exact quotient: sample `i` is taken `i / sample_rate` seconds in, and
/// a second holds `1 000 000 * time_unit / tempo` ticks.
pub open spec fn spec_tick_of_sample(song: SongData, sample_rate: usize, i: usize) -> int {
    (i * MICROS * song.time_unit) / (sample_rate * song.tempo)
}

/// Whether a song has a usable time base: a positive time unit and tempo.
pub open spec fn has_time_base(song: SongData) -> bool {
    song.time_unit > 0 && song.tempo > 0
}

/// How many samples the song takes at `sample_rate` samples per second,
/// rounded down.
///
/// A song whose time unit is not positive or whose tempo is zero is refused,
/// as is one whose length in samples does not fit a machine word, or whose
/// product of rate, length and tempo does not fit 128 bits.
pub fn sample_count(song: &MidiSong, sample_rate: usize) -> (r: Result<usize, SynthrsError>)
    ensures
        !has_time_base(song@) ==> r == Err::<usize, SynthrsError>(
            SynthrsError::Parse(ParseErrorKind::ZeroTimeBase),
        ),
        has_time_base(song@) && (sample_rate * song.max_time * song.tempo > u128::MAX
            || spec_sample_count(song@, sample_rate) > usize::MAX) ==> r == Err::<
            usize,
            SynthrsError,
        >(SynthrsError::Parse(ParseErrorKind::TooLong)),
        has_time_base(song@) && sample_rate * song.max_time * song.tempo <= u128::MAX
            && spec_sample_count(song@, sample_rate) <= usize::MAX ==> r == Ok::<
            usize,
            SynthrsError,
        >(spec_sample_count(song@, sample_rate) as usize),
{
    if song.time_unit <= 0 || song.tempo == 0 {
        return Err(SynthrsError::Parse(ParseErrorKind::ZeroTimeBase));
    }
    assert(sample_rate as u128 * song.max_time as u128 <= u128::MAX) by (nonlinear_arith)
        requires
            sample_rate <= 0xffff_ffff_ffff_ffff,
            song.max_time <= 0xffff_ffff_ffff_ffff,
    ;
    let ticks_rate: u128 = sample_rate as u128 * song.max_time as u128;
    let numerator: u128 = match ticks_rate.checked_mul(song.tempo as u128) {
        Some(n) => n,
        None => {
            return Err(SynthrsError::Parse(ParseErrorKind::TooLong));
        },
    };
    assert(MICROS * song.time_unit as u128 <= u128::MAX) by (nonlinear_arith)
        requires
            0 < song.time_unit <= 0x7fff_ffff_ffff_ffff,
    ;
    let denominator: u128 = MICROS * song.time_unit as u128;
    let count: u128 = numerator / denominator;
    if count > usize::MAX as u128 {
        return Err(SynthrsError::Parse(ParseErrorKind::TooLong));
    }
    Ok(count as usize)
}

/// The tick in which sample `i` falls at `sample_rate` samples per second.
///
/// `None` where the song has no usable time base, the rate is zero, the tick
/// does not fit a machine word, or the product of sample index and ticks per
/// second does not fit 128 bits.
pub fn tick_of_sample(song: &MidiSong, sample_rate: usize, i: usize) -> (r: Option<usize>)
    ensures
        r is Some <==> has_time_base(song@) && sample_rate > 0 && i * MICROS * song.time_unit
            <= u128::MAX && spec_tick_of_sample(song@, sample_rate, i) <= usize::MAX,
        r matches Some(tick) ==> tick == spec_tick_of_sample(song@, sample_rate, i),
{
    if song.time_unit <= 0 || song.tempo == 0 || sample_rate == 0 {
        return None;
    }
    assert(MICROS * song.time_unit as u128 <= 0x8_0000_0000_0000_0000_0000) by (nonlinear_arith)
        requires
            0 < song.time_unit <= 0x7fff_ffff_ffff_ffff,
    ;
    let ticks_per_second: u128 = MICROS * song.time_unit as u128;
    assert(i * MICROS * song.time_unit == i * (MICROS * song.time_unit)) by (nonlinear_arith);
    let numerator: u128 = match (i as u128).checked_mul(ticks_per_second) {
        Some(n) => n,
        None => {
            return None;
        },
    };
    assert(0 < sample_rate as u128 * song.tempo as u128 <= u128::MAX) by (nonlinear_arith)
        requires
            0 < sample_rate <= 0xffff_ffff_ffff_ffff,
            0 < song.tempo <= 0xffff_ffff_ffff_ffff,
    ;
    let denominator: u128 = sample_rate as u128 * song.tempo as u128;
    let tick: u128 = numerator / denominator;
    if tick > usize::MAX as u128 {
        return None;
    }
    Some(tick as usize)
}

/// Every sample of a song falls in one of its ticks: the tick of a sample
/// below the sample count is below `max_time`, so it has a bucket in the
/// table of sounding notes.
pub proof fn lemma_samples_fall_inside_the_song(song: SongData, sample_rate: usize, i: usize)
    requires
        has_time_base(song),
        i < spec_sample_count(song, sample_rate),
    ensures
        sample_rate > 0,
        0 <= spec_tick_of_sample(song, sample_rate, i) < song.max_time,
{
    let rate = sample_rate as int;
    let length = song.max_time as int;
    let tempo = song.tempo as int;
    let unit = song.time_unit as int;
    let index = i as int;
    let d = MICROS as int * unit;
    let n = rate * length * tempo;
    let b = rate * tempo;
    let a = index * MICROS as int * unit;
    assert(d > 0) by (nonlinear_arith)
        requires
            d == 1_000_000 * unit,
            unit > 0,
    ;
    if rate == 0 {
        assert(n == 0) by (nonlinear_arith)
            requires
                n == rate * length * tempo,
                rate == 0,
        ;
        assert(0int / d == 0) by (nonlinear_arith)
            requires
                d > 0,
        ;
    }
    assert(b > 0) by (nonlinear_arith)
        requires
            b == rate * tempo,
            rate > 0,
            tempo > 0,
    ;
    assert(a < n) by (nonlinear_arith)
        requires
            index < n / d,
            d > 0,
            a == index * 1_000_000 * unit,
            d == 1_000_000 * unit,
    ;
    assert(0 <= a / b < length) by (nonlinear_arith)
        requires
            0 <= a < n,
            n == rate * length * tempo,
            b == rate * tempo,
            b > 0,
            a == index * 1_000_000 * unit,
            index >= 0,
            unit > 0,
    ;
}

/// The largest pattern of an unsigned number of `size` bytes: `2^(8 size) - 1`.
/// A sample in `[-1, 1]` is quantized by scaling it with half of this.
pub open spec fn spec_quantization_levels(size: nat) -> nat
    decreases size,
{
    if size == 0 {
        0
    } else {
        spec_quantization_levels((size - 1) as nat) * 256 + 255
    }
}

/// The levels of a type of `size` bytes are one less than a power of two.
pub proof fn lemma_quantization_levels(size: nat)
    ensures
        spec_quantization_levels(size) + 1 == vstd::arithmetic::power2::pow2(8 * size),
    decreases size,
{
    if size == 0 {
        vstd::arithmetic::power2::lemma2_to64();
    } else {
        lemma_quantization_levels((size - 1) as nat);
        vstd::arithmetic::power2::lemma2_to64();
        vstd::arithmetic::power2::lemma_pow2_adds((8 * (size - 1)) as nat, 8);
    }
}

/// The number of quantization levels of a type of `size` bytes, less one:
/// 255 for one byte, 65 535 for two. `None` beyond 16 bytes, where the count
/// does not fit 128 bits.
pub fn quantization_levels(size: usize) -> (r: Option<u128>)
    ensures
        size <= 16 ==> r == Some(spec_quantization_levels(size as nat) as u128),
        size <= 16 ==> spec_quantization_levels(size as nat) <= u128::MAX,
        size > 16 ==> r is None,
{
    if size > 16 {
        return None;
    }
    let mut levels: u128 = 0;
    let mut i: usize = 0;
    proof {
        vstd::arithmetic::power2::lemma2_to64();
    }
    while i < size
        invariant
            i <= size <= 16,
            levels == spec_quantization_levels(i as nat),
            levels + 1 == vstd::arithmetic::power2::pow2((8 * i) as nat),
        decreases size - i,
    {
        proof {
            vstd::arithmetic::power2::lemma2_to64();
            vstd::arithmetic::power2::lemma2_to64_rest();
            vstd::arithmetic::power2::lemma_pow2_adds(64, 56);
            assert(vstd::arithmetic::power2::pow2(120) == 0x100_0000_0000_0000_0000_0000_0000_0000);
            if 8 * i < 120 {
                vstd::arithmetic::power2::lemma_pow2_strictly_increases((8 * i) as nat, 120);
            }
            vstd::arithmetic::power2::lemma_pow2_adds((8 * i) as nat, 8);
        }
        levels = levels * 256 + 255;
        i = i + 1;
    }
    Some(levels)
}

} // verus!
