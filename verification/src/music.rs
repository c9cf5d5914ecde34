//! Equal temperament in whole numbers: how many semitones a note lies from
//! the A above middle C (A4). A frequency is `a4 * 2^(semitones / 12)`.
//!
//! Semitones within an octave count from C: 0 C, 1 C#, 2 D, 3 D#, 4 E, 5 F,
//! 6 F#, 7 G, 8 G#, 9 A, 10 A#, 11 B.

use vstd::prelude::*;

verus! {

/// MIDI note number of A4.
pub const MIDI_A4: usize = 69;

/// Semitones from A4 up to the note `semitone` of octave `octave`; negative
/// below A4. A4 itself is semitone 9 of octave 4.
pub open spec fn spec_semitones_from_a4(semitone: usize, octave: usize) -> int {
    octave * 12 + semitone - 9 - 48
}

/// Semitones from A4 up to the note `semitone` of octave `octave`.
pub fn semitones_from_a4(semitone: usize, octave: usize) -> (r: isize)
    requires
        octave * 12 + semitone <= isize::MAX,
    ensures
        r == spec_semitones_from_a4(semitone, octave),
{
    let steps: usize = octave * 12 + semitone;
    steps as isize - 9 - 48
}

/// The semitone within its octave of a MIDI note from 24 up.
pub open spec fn spec_midi_semitone(midi_note: usize) -> usize
    recommends
        midi_note >= 24,
{
    ((midi_note - 24) % 12) as usize
}

/// The octave of a MIDI note from 24 up: note 60, middle C, opens octave 4.
pub open spec fn spec_midi_octave(midi_note: usize) -> usize
    recommends
        midi_note >= 24,
{
    ((midi_note - 24) / 12 + 1) as usize
}

/// Splits a MIDI note number into its semitone within the octave and its
/// octave.
pub fn midi_semitone_octave(midi_note: usize) -> (r: (usize, usize))
    requires
        midi_note >= 24,
    ensures
        r == (spec_midi_semitone(midi_note), spec_midi_octave(midi_note)),
        r.0 < 12,
{
    let above: usize = midi_note - 24;
    (above % 12, above / 12 + 1)
}

/// Semitones from A4 up to a MIDI note: the distance from note 69.
pub fn midi_semitones_from_a4(midi_note: u8) -> (r: isize)
    ensures
        r == midi_note - MIDI_A4,
{
    midi_note as isize - 69
}

/// Splitting a MIDI note into semitone and octave and measuring from there
/// gives its distance from note 69, which therefore is A4.
pub proof fn lemma_midi_split_agrees(midi_note: usize)
    requires
        midi_note >= 24,
    ensures
        spec_semitones_from_a4(spec_midi_semitone(midi_note), spec_midi_octave(midi_note))
            == midi_note - MIDI_A4,
        spec_midi_semitone(MIDI_A4) == 9,
        spec_midi_octave(MIDI_A4) == 4,
{
}

} // verus!
