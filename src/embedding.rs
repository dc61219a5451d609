//! Voice embeddings: decoding an embedding file, and the store that keeps the
//! embedding of each voice once it has been read.
//!
//! A value of an embedding is a 32-bit float; the library carries it as its
//! IEEE-754 bit pattern, read little-endian from the file.
use crate::error::TtsError;
use crate::voices::{all_voices, catalog, lemma_catalog_index, voice_index, VoiceType, VOICE_COUNT};
use vstd::prelude::*;
use vstd::string::*;

verus! {

/// Frames of an embedding.
pub const EMBEDDING_FRAMES: usize = 510;

/// Values of a style vector.
pub const STYLE_DIM: usize = 256;

/// Values of an embedding: 510 frames of 1 x 256.
pub const EMBEDDING_VALUES: usize = 130560;

/// Bytes of an embedding file: four per value.
pub const EMBEDDING_BYTES: usize = 522240;

/// The little-endian 32-bit word at word position `i` of `b`.
pub open spec fn le_word(b: Seq<u8>, i: int) -> u32 {
    (b[4 * i] as int + 256 * b[4 * i + 1] as int + 65536 * b[4 * i + 2] as int + 16777216 * b[4
        * i + 3] as int) as u32
}

/// The words of `b`, four bytes each, little-endian.
pub open spec fn words_of(b: Seq<u8>) -> Seq<u32> {
    Seq::new(b.len() / 4, |i: int| le_word(b, i))
}

/// The embedding that an embedding file holds, if its size is right.
pub open spec fn embedding_of_bytes(b: Seq<u8>) -> Option<Seq<u32>> {
    if b.len() == EMBEDDING_BYTES {
        Some(words_of(b))
    } else {
        None
    }
}

/// Why a file of the wrong size is refused.
pub open spec fn size_error_message() -> Seq<char> {
    "Voice file has unexpected size: expected 522240 bytes"@
}

/// Decodes the contents of an embedding file: exactly 510 * 1 * 256 * 4
/// bytes, read as 510 * 256 little-endian words.
pub fn decode_embedding(bytes: &[u8]) -> (r: Result<Vec<u32>, TtsError>)
    ensures
        match r {
            Ok(w) => bytes@.len() == EMBEDDING_BYTES && w@ == words_of(bytes@)
                && w@.len() == EMBEDDING_VALUES,
            Err(e) => bytes@.len() != EMBEDDING_BYTES && (e matches TtsError::VoiceDataError(m)
                && m@ == size_error_message()),
        },
{
    if bytes.len() != EMBEDDING_BYTES {
        return Err(
            TtsError::VoiceDataError(
                String::from_str("Voice file has unexpected size: expected 522240 bytes"),
            ),
        );
    }
    let mut out: Vec<u32> = Vec::new();
    let mut i: usize = 0;
    while i < EMBEDDING_VALUES
        invariant
            i <= EMBEDDING_VALUES,
            bytes@.len() == EMBEDDING_BYTES,
            out@ == words_of(bytes@).subrange(0, i as int),
        decreases EMBEDDING_VALUES - i,
    {
        let w = bytes[4 * i] as u32 + 256 * (bytes[4 * i + 1] as u32) + 65536 * (bytes[4 * i
            + 2] as u32) + 16777216 * (bytes[4 * i + 3] as u32);
        out.push(w);
        i = i + 1;
        assert(out@ =~= words_of(bytes@).subrange(0, i as int));
    }
    assert(words_of(bytes@).subrange(0, EMBEDDING_VALUES as int) =~= words_of(bytes@));
    Ok(out)
}

fn copy_words(v: &Vec<u32>) -> (r: Vec<u32>)
    ensures
        r@ == v@,
{
    let mut out: Vec<u32> = Vec::new();
    let mut i: usize = 0;
    while i < v.len()
        invariant
            i <= v.len(),
            out@ == v@.subrange(0, i as int),
        decreases v.len() - i,
    {
        out.push(v[i]);
        i = i + 1;
    }
    assert(v@.subrange(0, v.len() as int) == v@);
    out
}

/// The voices among the first `n` of the catalog whose embedding is loaded,
/// in catalog order.
pub open spec fn loaded_voices(slots: Seq<Option<Seq<u32>>>, n: nat) -> Seq<VoiceType>
    decreases n,
{
    if n == 0 {
        Seq::empty()
    } else {
        let rest = loaded_voices(slots, (n - 1) as nat);
        if slots[n - 1] is Some {
            rest.push(catalog()[n - 1])
        } else {
            rest
        }
    }
}

/// Why a voice's file (its contents, or why it could not be read) does not
/// load, if it does not.
pub open spec fn file_failure(f: Result<Vec<u8>, String>) -> Option<Seq<char>> {
    match f {
        Ok(b) => if b@.len() == EMBEDDING_BYTES {
            None
        } else {
            Some(size_error_message())
        },
        Err(m) => Some(m@),
    }
}

/// Why the first of the first `n` files that does not load fails, if any.
pub open spec fn first_failure(files: Seq<Result<Vec<u8>, String>>, n: nat) -> Option<Seq<char>>
    decreases n,
{
    if n == 0 {
        None
    } else {
        match first_failure(files, (n - 1) as nat) {
            Some(m) => Some(m),
            None => file_failure(files[n - 1]),
        }
    }
}

proof fn lemma_first_failure_none(files: Seq<Result<Vec<u8>, String>>, n: nat)
    requires
        first_failure(files, n) is None,
        n <= files.len(),
    ensures
        forall|j: int| 0 <= j < n ==> file_failure(#[trigger] files[j]) is None,
    decreases n,
{
    if n > 0 {
        lemma_first_failure_none(files, (n - 1) as nat);
    }
}

/// Per-voice embeddings, each read at most once and kept afterwards.
pub struct VoiceStore {
    slots: Vec<Option<Vec<u32>>>,
}

impl View for VoiceStore {
    /// For each voice, by catalog index, its embedding if loaded.
    type V = Seq<Option<Seq<u32>>>;

    closed spec fn view(&self) -> Seq<Option<Seq<u32>>> {
        self.slots@.map_values(
            |o: Option<Vec<u32>>|
                match o {
                    Some(w) => Some(w@),
                    None => None,
                },
        )
    }
}

impl VoiceStore {
    /// The store has a slot for each voice of the catalog.
    pub open spec fn wf(&self) -> bool {
        self@.len() == VOICE_COUNT
    }

    /// An empty store.
    pub fn new() -> (r: VoiceStore)
        ensures
            r.wf(),
            r@ == Seq::new(VOICE_COUNT as nat, |i: int| None::<Seq<u32>>),
    {
        let mut slots: Vec<Option<Vec<u32>>> = Vec::new();
        let mut i: usize = 0;
        while i < VOICE_COUNT
            invariant
                i <= VOICE_COUNT,
                slots@.len() == i,
                forall|j: int| 0 <= j < i ==> slots@[j] is None,
            decreases VOICE_COUNT - i,
        {
            slots.push(None);
            i = i + 1;
        }
        let r = VoiceStore { slots };
        assert(r@ =~= Seq::new(VOICE_COUNT as nat, |i: int| None::<Seq<u32>>));
        r
    }

    /// Whether the embedding of `voice` is loaded.
    pub fn is_loaded(&self, voice: VoiceType) -> (r: bool)
        requires
            self.wf(),
        ensures
            r == self@[voice_index(voice) as int] is Some,
    {
        proof {
            lemma_catalog_index(voice);
        }
        self.slots[voice.index()].is_some()
    }

    /// Keeps the embedding read from `bytes` for `voice`; fails, leaving the
    /// store as it was, where the file's size is wrong.
    pub fn load_voice_embedding(&mut self, voice: VoiceType, bytes: &[u8]) -> (r: Result<
        (),
        TtsError,
    >)
        requires
            old(self).wf(),
        ensures
            final(self).wf(),
            match embedding_of_bytes(bytes@) {
                Some(w) => r is Ok && final(self)@ == old(self)@.update(
                    voice_index(voice) as int,
                    Some(w),
                ),
                None => (r matches Err(TtsError::VoiceDataError(m)) && m@ == size_error_message())
                    && final(self)@ == old(self)@,
            },
    {
        proof {
            lemma_catalog_index(voice);
        }
        match decode_embedding(bytes) {
            Ok(w) => {
                let ghost before = self@;
                self.slots.set(voice.index(), Some(w));
                assert(self@ =~= before.update(voice_index(voice) as int, Some(w@)));
                Ok(())
            },
            Err(e) => Err(e),
        }
    }

    /// A copy of the embedding of `voice`, if it is loaded.
    pub fn get_voice_embedding(&self, voice: VoiceType) -> (r: Option<Vec<u32>>)
        requires
            self.wf(),
        ensures
            match r {
                Some(w) => self@[voice_index(voice) as int] == Some(w@),
                None => self@[voice_index(voice) as int] is None,
            },
    {
        proof {
            lemma_catalog_index(voice);
        }
        match &self.slots[voice.index()] {
            Some(w) => Some(copy_words(w)),
            None => None,
        }
    }

    /// Takes the contents of every voice's file, in catalog order (or why it
    /// could not be read), and keeps each embedding that decodes. Fails with
    /// the first failure if any voice failed; the voices that loaded stay.
    pub fn load_all_voice_embeddings(&mut self, files: &Vec<Result<Vec<u8>, String>>) -> (r:
        Result<(), TtsError>)
        requires
            old(self).wf(),
            files@.len() == VOICE_COUNT,
        ensures
            final(self).wf(),
            forall|i: int|
                0 <= i < VOICE_COUNT ==> #[trigger] final(self)@[i] == match files@[i] {
                    Ok(b) => match embedding_of_bytes(b@) {
                        Some(w) => Some(w),
                        None => old(self)@[i],
                    },
                    Err(_) => old(self)@[i],
                },
            r is Ok <==> forall|i: int|
                0 <= i < VOICE_COUNT ==> (#[trigger] files@[i] matches Ok(b)
                    && b@.len() == EMBEDDING_BYTES),
            r is Ok <==> first_failure(files@, VOICE_COUNT as nat) is None,
            r matches Err(e) ==> (e matches TtsError::VoiceDataError(m) && first_failure(
                files@,
                VOICE_COUNT as nat,
            ) matches Some(cause) && m@ == "Failed to load voice data: "@ + cause),
    {
        let voices = all_voices();
        let mut first_error: Option<TtsError> = None;
        let mut i: usize = 0;
        while i < VOICE_COUNT
            invariant
                i <= VOICE_COUNT,
                voices@ == catalog(),
                files@.len() == VOICE_COUNT,
                self.wf(),
                forall|j: int|
                    0 <= j < i ==> #[trigger] self@[j] == match files@[j] {
                        Ok(b) => match embedding_of_bytes(b@) {
                            Some(w) => Some(w),
                            None => old(self)@[j],
                        },
                        Err(_) => old(self)@[j],
                    },
                forall|j: int| i <= j < VOICE_COUNT ==> #[trigger] self@[j] == old(self)@[j],
                first_error is None <==> forall|j: int|
                    0 <= j < i ==> (#[trigger] files@[j] matches Ok(b) && b@.len()
                        == EMBEDDING_BYTES),
                first_error is None <==> first_failure(files@, i as nat) is None,
                first_error matches Some(e) ==> (e matches TtsError::VoiceDataError(m)
                    && first_failure(files@, i as nat) == Some(m@)),
            decreases VOICE_COUNT - i,
        {
            let voice = voices[i];
            proof {
                lemma_catalog_index(voice);
                assert(voice_index(voice) == i) by {
                    assert(catalog()[voice_index(voice) as int] == catalog()[i as int]);
                }
            }
            let ghost before = self@;
            proof {
                if first_failure(files@, i as nat) is None {
                    lemma_first_failure_none(files@, i as nat);
                }
            }
            match &files[i] {
                Ok(bytes) => {
                    match self.load_voice_embedding(voice, bytes.as_slice()) {
                        Ok(()) => {},
                        Err(e) => {
                            if first_error.is_none() {
                                first_error = Some(e);
                            }
                        },
                    }
                },
                Err(msg) => {
                    if first_error.is_none() {
                        first_error = Some(TtsError::VoiceDataError(msg.clone()));
                    }
                },
            }
            i = i + 1;
        }
        match first_error {
            None => Ok(()),
            Some(e) => Err(TtsError::VoiceDataError(e.message())),
        }
    }

    /// The voices whose embedding is loaded, in catalog order.
    pub fn available_voices(&self) -> (r: Vec<VoiceType>)
        requires
            self.wf(),
        ensures
            r@ == loaded_voices(self@, VOICE_COUNT as nat),
    {
        let voices = all_voices();
        let mut out: Vec<VoiceType> = Vec::new();
        let mut i: usize = 0;
        while i < VOICE_COUNT
            invariant
                i <= VOICE_COUNT,
                voices@ == catalog(),
                self.wf(),
                out@ == loaded_voices(self@, i as nat),
            decreases VOICE_COUNT - i,
        {
            if self.slots[i].is_some() {
                out.push(voices[i]);
            }
            i = i + 1;
        }
        out
    }
}

} // verus!
