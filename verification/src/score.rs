use vstd::prelude::*;

verus! {

/// A tone: a frequency in Hz and how many beats it keeps sounding.
#[derive(Clone, Copy, Debug, PartialEq, Eq, Structural)]
pub struct NoteAndDuration {
    pub frequency: u16,
    pub duration: u16,
}

/// An immutable, precompiled song.
///
/// Slot `i` of `notes` holds the notes that begin at beat `i` (`None` means
/// none do); `end` is the song's length in beats, the modulus at which
/// playback wraps or stops. A `Song` is built once, ahead of playback, and
/// is only ever read afterwards, so any number of players may share one.
pub struct Song {
    pub notes: Vec<Option<Vec<NoteAndDuration>>>,
    pub end: u16,
}

impl NoteAndDuration {
    /// The note as a plain (frequency, duration) pair.
    pub open spec fn as_pair(self) -> (u16, u16) {
        (self.frequency, self.duration)
    }
}

impl Song {
    /// The notes that begin at beat `b`, as (frequency, duration) pairs;
    /// empty outside the stored slots.
    pub open spec fn slot(self, b: int) -> Seq<(u16, u16)> {
        if 0 <= b < self.notes@.len() {
            match self.notes@[b] {
                Some(list) => list@.map_values(|n: NoteAndDuration| n.as_pair()),
                None => Seq::empty(),
            }
        } else {
            Seq::empty()
        }
    }

    /// Every beat slot, in order, as (frequency, duration) pairs.
    pub open spec fn slots(self) -> Seq<Seq<(u16, u16)>> {
        Seq::new(self.notes@.len(), |b: int| self.slot(b))
    }

    /// Well-formed: a positive loop length, and every stored note has a
    /// positive frequency and at least one beat of duration.
    pub open spec fn wf(self) -> bool {
        &&& self.end >= 1
        &&& forall|b: int, j: int|
            0 <= b < self.notes@.len() && 0 <= j < self.slot(b).len() ==> {
                let n = #[trigger] self.slot(b)[j];
                n.0 >= 1 && n.1 >= 1
            }
    }
}

} // verus!
