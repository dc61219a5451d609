//! The voice catalog: twelve voices in two dialects, each with an embedding
//! file, a phonemizer language code and a request identifier.
use crate::text::str_eq;
use vstd::prelude::*;
use vstd::string::*;

verus! {

#[derive(Debug, Clone, Copy, PartialEq, Eq, Hash, Structural)]
pub enum AmericanFemaleVoice {
    Bella,
    Nicole,
    Sky,
}

#[derive(Debug, Clone, Copy, PartialEq, Eq, Hash, Structural)]
pub enum AmericanMaleVoice {
    Fenrir,
    Michael,
    Puck,
}

#[derive(Debug, Clone, Copy, PartialEq, Eq, Hash, Structural)]
pub enum BritishFemaleVoice {
    Emma,
    Isabella,
    Lily,
}

#[derive(Debug, Clone, Copy, PartialEq, Eq, Hash, Structural)]
pub enum BritishMaleVoice {
    Fable,
    George,
    Lewis,
}

/// One of the voices of the catalog.
#[derive(Debug, Clone, Copy, PartialEq, Eq, Hash, Structural)]
pub enum VoiceType {
    AmericanFemale(AmericanFemaleVoice),
    AmericanMale(AmericanMaleVoice),
    BritishFemale(BritishFemaleVoice),
    BritishMale(BritishMaleVoice),
}

/// Number of voices in the catalog.
pub const VOICE_COUNT: usize = 12;

/// Name of the embedding file of `v`.
pub open spec fn voice_file(v: VoiceType) -> Seq<char> {
    match v {
        VoiceType::AmericanFemale(AmericanFemaleVoice::Bella) => "af_bella.bin"@,
        VoiceType::AmericanFemale(AmericanFemaleVoice::Nicole) => "af_nicole.bin"@,
        VoiceType::AmericanFemale(AmericanFemaleVoice::Sky) => "af_sky.bin"@,
        VoiceType::AmericanMale(AmericanMaleVoice::Fenrir) => "am_fenrir.bin"@,
        VoiceType::AmericanMale(AmericanMaleVoice::Michael) => "am_michael.bin"@,
        VoiceType::AmericanMale(AmericanMaleVoice::Puck) => "am_puck.bin"@,
        VoiceType::BritishFemale(BritishFemaleVoice::Emma) => "bf_emma.bin"@,
        VoiceType::BritishFemale(BritishFemaleVoice::Isabella) => "bf_isabella.bin"@,
        VoiceType::BritishFemale(BritishFemaleVoice::Lily) => "bf_lily.bin"@,
        VoiceType::BritishMale(BritishMaleVoice::Fable) => "bm_fable.bin"@,
        VoiceType::BritishMale(BritishMaleVoice::George) => "bm_george.bin"@,
        VoiceType::BritishMale(BritishMaleVoice::Lewis) => "bm_lewis.bin"@,
    }
}

/// The identifier a request names `v` by (dialect, gender, name).
pub open spec fn voice_id(v: VoiceType) -> Seq<char> {
    match v {
        VoiceType::AmericanFemale(AmericanFemaleVoice::Bella) => "american_female_bella"@,
        VoiceType::AmericanFemale(AmericanFemaleVoice::Nicole) => "american_female_nicole"@,
        VoiceType::AmericanFemale(AmericanFemaleVoice::Sky) => "american_female_sky"@,
        VoiceType::AmericanMale(AmericanMaleVoice::Fenrir) => "american_male_fenrir"@,
        VoiceType::AmericanMale(AmericanMaleVoice::Michael) => "american_male_michael"@,
        VoiceType::AmericanMale(AmericanMaleVoice::Puck) => "american_male_puck"@,
        VoiceType::BritishFemale(BritishFemaleVoice::Emma) => "british_female_emma"@,
        VoiceType::BritishFemale(BritishFemaleVoice::Isabella) => "british_female_isabella"@,
        VoiceType::BritishFemale(BritishFemaleVoice::Lily) => "british_female_lily"@,
        VoiceType::BritishMale(BritishMaleVoice::Fable) => "british_male_fable"@,
        VoiceType::BritishMale(BritishMaleVoice::George) => "british_male_george"@,
        VoiceType::BritishMale(BritishMaleVoice::Lewis) => "british_male_lewis"@,
    }
}

/// Phonemizer language code of `v`'s dialect.
pub open spec fn voice_language(v: VoiceType) -> Seq<char> {
    match v {
        VoiceType::AmericanFemale(_) | VoiceType::AmericanMale(_) => "en-us"@,
        VoiceType::BritishFemale(_) | VoiceType::BritishMale(_) => "en-gb"@,
    }
}

/// Position of `v` in the catalog order.
pub open spec fn voice_index(v: VoiceType) -> nat {
    match v {
        VoiceType::AmericanFemale(a) => match a {
            AmericanFemaleVoice::Bella => 0,
            AmericanFemaleVoice::Nicole => 1,
            AmericanFemaleVoice::Sky => 2,
        },
        VoiceType::AmericanMale(a) => match a {
            AmericanMaleVoice::Fenrir => 3,
            AmericanMaleVoice::Michael => 4,
            AmericanMaleVoice::Puck => 5,
        },
        VoiceType::BritishFemale(a) => match a {
            BritishFemaleVoice::Emma => 6,
            BritishFemaleVoice::Isabella => 7,
            BritishFemaleVoice::Lily => 8,
        },
        VoiceType::BritishMale(a) => match a {
            BritishMaleVoice::Fable => 9,
            BritishMaleVoice::George => 10,
            BritishMaleVoice::Lewis => 11,
        },
    }
}

/// The catalog, in order.
pub open spec fn catalog() -> Seq<VoiceType> {
    seq![
        VoiceType::AmericanFemale(AmericanFemaleVoice::Bella),
        VoiceType::AmericanFemale(AmericanFemaleVoice::Nicole),
        VoiceType::AmericanFemale(AmericanFemaleVoice::Sky),
        VoiceType::AmericanMale(AmericanMaleVoice::Fenrir),
        VoiceType::AmericanMale(AmericanMaleVoice::Michael),
        VoiceType::AmericanMale(AmericanMaleVoice::Puck),
        VoiceType::BritishFemale(BritishFemaleVoice::Emma),
        VoiceType::BritishFemale(BritishFemaleVoice::Isabella),
        VoiceType::BritishFemale(BritishFemaleVoice::Lily),
        VoiceType::BritishMale(BritishMaleVoice::Fable),
        VoiceType::BritishMale(BritishMaleVoice::George),
        VoiceType::BritishMale(BritishMaleVoice::Lewis),
    ]
}

/// Every voice stands in the catalog at its index.
pub proof fn lemma_catalog_index(v: VoiceType)
    ensures
        catalog().len() == VOICE_COUNT,
        voice_index(v) < VOICE_COUNT,
        catalog()[voice_index(v) as int] == v,
{
}

impl VoiceType {
    /// Returns the file name of the voice's embedding.
    pub fn file_name(&self) -> (r: &'static str)
        ensures
            r@ == voice_file(*self),
    {
        match self {
            VoiceType::AmericanFemale(voice) => match voice {
                AmericanFemaleVoice::Bella => "af_bella.bin",
                AmericanFemaleVoice::Nicole => "af_nicole.bin",
                AmericanFemaleVoice::Sky => "af_sky.bin",
            },
            VoiceType::AmericanMale(voice) => match voice {
                AmericanMaleVoice::Fenrir => "am_fenrir.bin",
                AmericanMaleVoice::Michael => "am_michael.bin",
                AmericanMaleVoice::Puck => "am_puck.bin",
            },
            VoiceType::BritishFemale(voice) => match voice {
                BritishFemaleVoice::Emma => "bf_emma.bin",
                BritishFemaleVoice::Isabella => "bf_isabella.bin",
                BritishFemaleVoice::Lily => "bf_lily.bin",
            },
            VoiceType::BritishMale(voice) => match voice {
                BritishMaleVoice::Fable => "bm_fable.bin",
                BritishMaleVoice::George => "bm_george.bin",
                BritishMaleVoice::Lewis => "bm_lewis.bin",
            },
        }
    }

    /// Returns the phonemizer language code of the voice's dialect.
    pub fn language(&self) -> (r: &'static str)
        ensures
            r@ == voice_language(*self),
    {
        match self {
            VoiceType::AmericanFemale(_) | VoiceType::AmericanMale(_) => "en-us",
            VoiceType::BritishFemale(_) | VoiceType::BritishMale(_) => "en-gb",
        }
    }

    /// Returns the path of the voice's embedding file under `assets_root`.
    pub fn path(&self, assets_root: &str) -> (r: String)
        ensures
            r@ == assets_root@ + "/Kokoro/"@ + voice_file(*self),
    {
        let mut p = assets_root.to_owned();
        p.append("/Kokoro/");
        p.append(self.file_name());
        p
    }

    /// Returns the position of the voice in the catalog.
    pub fn index(&self) -> (r: usize)
        ensures
            r == voice_index(*self),
    {
        match self {
            VoiceType::AmericanFemale(a) => match a {
                AmericanFemaleVoice::Bella => 0,
                AmericanFemaleVoice::Nicole => 1,
                AmericanFemaleVoice::Sky => 2,
            },
            VoiceType::AmericanMale(a) => match a {
                AmericanMaleVoice::Fenrir => 3,
                AmericanMaleVoice::Michael => 4,
                AmericanMaleVoice::Puck => 5,
            },
            VoiceType::BritishFemale(a) => match a {
                BritishFemaleVoice::Emma => 6,
                BritishFemaleVoice::Isabella => 7,
                BritishFemaleVoice::Lily => 8,
            },
            VoiceType::BritishMale(a) => match a {
                BritishMaleVoice::Fable => 9,
                BritishMaleVoice::George => 10,
                BritishMaleVoice::Lewis => 11,
            },
        }
    }

    /// Returns the identifier that requests name the voice by.
    pub fn id(&self) -> (r: &'static str)
        ensures
            r@ == voice_id(*self),
    {
        match self {
            VoiceType::AmericanFemale(voice) => match voice {
                AmericanFemaleVoice::Bella => "american_female_bella",
                AmericanFemaleVoice::Nicole => "american_female_nicole",
                AmericanFemaleVoice::Sky => "american_female_sky",
            },
            VoiceType::AmericanMale(voice) => match voice {
                AmericanMaleVoice::Fenrir => "american_male_fenrir",
                AmericanMaleVoice::Michael => "american_male_michael",
                AmericanMaleVoice::Puck => "american_male_puck",
            },
            VoiceType::BritishFemale(voice) => match voice {
                BritishFemaleVoice::Emma => "british_female_emma",
                BritishFemaleVoice::Isabella => "british_female_isabella",
                BritishFemaleVoice::Lily => "british_female_lily",
            },
            VoiceType::BritishMale(voice) => match voice {
                BritishMaleVoice::Fable => "british_male_fable",
                BritishMaleVoice::George => "british_male_george",
                BritishMaleVoice::Lewis => "british_male_lewis",
            },
        }
    }
}

/// All voices of the catalog, in catalog order.
pub fn all_voices() -> (r: Vec<VoiceType>)
    ensures
        r@ == catalog(),
{
    let v = vec![
        VoiceType::AmericanFemale(AmericanFemaleVoice::Bella),
        VoiceType::AmericanFemale(AmericanFemaleVoice::Nicole),
        VoiceType::AmericanFemale(AmericanFemaleVoice::Sky),
        VoiceType::AmericanMale(AmericanMaleVoice::Fenrir),
        VoiceType::AmericanMale(AmericanMaleVoice::Michael),
        VoiceType::AmericanMale(AmericanMaleVoice::Puck),
        VoiceType::BritishFemale(BritishFemaleVoice::Emma),
        VoiceType::BritishFemale(BritishFemaleVoice::Isabella),
        VoiceType::BritishFemale(BritishFemaleVoice::Lily),
        VoiceType::BritishMale(BritishMaleVoice::Fable),
        VoiceType::BritishMale(BritishMaleVoice::George),
        VoiceType::BritishMale(BritishMaleVoice::Lewis),
    ];
    assert(v@ =~= catalog());
    v
}

/// Parses a request's voice identifier.
pub fn parse_voice(voice_str: &str) -> (r: Result<VoiceType, String>)
    ensures
        match r {
            Ok(v) => voice_id(v) == voice_str@,
            Err(msg) => (forall|v: VoiceType| voice_id(v) != voice_str@) && msg@
                == "Unsupported voice: "@ + voice_str@,
        },
{
    let voices = all_voices();
    let mut i: usize = 0;
    while i < voices.len()
        invariant
            i <= voices.len(),
            voices@ == catalog(),
            forall|j: int| 0 <= j < i ==> voice_id(#[trigger] catalog()[j]) != voice_str@,
        decreases voices.len() - i,
    {
        let v = voices[i];
        if str_eq(v.id(), voice_str) {
            return Ok(v);
        }
        i = i + 1;
    }
    assert forall|v: VoiceType| voice_id(v) != voice_str@ by {
        lemma_catalog_index(v);
    }
    let mut msg = String::from_str("Unsupported voice: ");
    msg.append(voice_str);
    Err(msg)
}

} // verus!
