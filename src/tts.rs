//! The decisions of the synthesis pipeline: request validation, cache keys,
//! the phonemizer's output, and the tokens handed to the model.
//!
//! A speed is a 32-bit float carried as its IEEE-754 bit pattern.
use crate::cache::{after_lookup, lookup_result, SynthesisCache};
use crate::error::TtsError;
use crate::normalize::{normalize_text, normalized};
use crate::vocab::{pad_tokens, tokens_of, Vocabulary};
use crate::voices::{voice_file, VoiceType};
use vstd::prelude::*;
use vstd::string::*;

verus! {

/// Bit pattern of the slowest speed, 0.5.
pub const MIN_SPEED_BITS: u32 = 0x3F00_0000;

/// Bit pattern of the fastest speed, 2.0.
pub const MAX_SPEED_BITS: u32 = 0x4000_0000;

/// Bit pattern of the default speed, 1.0.
pub const DEFAULT_SPEED_BITS: u32 = 0x3F80_0000;

/// The float with bit pattern `bits` lies in [0.5, 2.0]. For non-negative
/// floats the bit patterns are ordered as the values are; negative values,
/// infinities and NaNs all have patterns outside this interval.
pub open spec fn speed_in_range(bits: u32) -> bool {
    MIN_SPEED_BITS <= bits && bits <= MAX_SPEED_BITS
}

/// Rejects a speed outside [0.5, 2.0].
pub fn validate_speed(speed_bits: u32) -> (r: Result<(), TtsError>)
    ensures
        r is Ok <==> speed_in_range(speed_bits),
        r matches Err(e) ==> e is ValidationError,
{
    if MIN_SPEED_BITS <= speed_bits && speed_bits <= MAX_SPEED_BITS {
        Ok(())
    } else {
        Err(TtsError::ValidationError(String::from_str("Speed must be between 0.5 and 2.0")))
    }
}

/// The decimal digit for `d` (below ten).
pub open spec fn digit_char(d: nat) -> char {
    if d == 0 {
        '0'
    } else if d == 1 {
        '1'
    } else if d == 2 {
        '2'
    } else if d == 3 {
        '3'
    } else if d == 4 {
        '4'
    } else if d == 5 {
        '5'
    } else if d == 6 {
        '6'
    } else if d == 7 {
        '7'
    } else if d == 8 {
        '8'
    } else {
        '9'
    }
}

/// The decimal notation of `n`.
pub open spec fn decimal(n: nat) -> Seq<char>
    decreases n,
{
    if n < 10 {
        seq![digit_char(n)]
    } else {
        decimal(n / 10).push(digit_char(n % 10))
    }
}

fn digit_of(d: u32) -> (r: char)
    requires
        d < 10,
    ensures
        r == digit_char(d as nat),
{
    if d == 0 {
        '0'
    } else if d == 1 {
        '1'
    } else if d == 2 {
        '2'
    } else if d == 3 {
        '3'
    } else if d == 4 {
        '4'
    } else if d == 5 {
        '5'
    } else if d == 6 {
        '6'
    } else if d == 7 {
        '7'
    } else if d == 8 {
        '8'
    } else {
        '9'
    }
}

/// The decimal notation of `n`.
pub fn decimal_string(n: u32) -> (r: String)
    ensures
        r@ == decimal(n as nat),
    decreases n,
{
    if n < 10 {
        let mut s = String::new();
        s.push(digit_of(n));
        s
    } else {
        let mut s = decimal_string(n / 10);
        s.push(digit_of(n % 10));
        s
    }
}

/// The cache key of a request: normalized text, voice file name and the
/// speed's bit pattern in decimal, separated by colons.
pub open spec fn cache_key(text: Seq<char>, voice: VoiceType, speed_bits: u32) -> Seq<char> {
    text + seq![':'] + voice_file(voice) + seq![':'] + decimal(speed_bits as nat)
}

/// Builds the cache key of `(text, voice, speed)`.
pub fn generate_cache_key(text: &str, voice: &VoiceType, speed_bits: u32) -> (r: String)
    ensures
        r@ == cache_key(text@, *voice, speed_bits),
{
    let mut k = text.to_owned();
    k.append(":");
    k.append(voice.file_name());
    k.append(":");
    let d = decimal_string(speed_bits);
    k.append(d.as_str());
    proof {
        reveal_strlit(":");
    }
    k
}

/// `s` holds no colon.
pub open spec fn colon_free(s: Seq<char>) -> bool {
    forall|i: int| 0 <= i < s.len() ==> s[i] != ':'
}

proof fn lemma_digit_char(d: nat)
    ensures
        digit_char(d) != ':',
        d < 10 ==> forall|e: nat| e < 10 && digit_char(e) == digit_char(d) ==> e == d,
{
}

proof fn lemma_decimal(n: nat)
    ensures
        colon_free(decimal(n)),
        decimal(n).len() >= 1,
        n >= 10 ==> decimal(n).len() >= 2,
    decreases n,
{
    lemma_digit_char(n % 10);
    if n >= 10 {
        lemma_decimal(n / 10);
    }
}

proof fn lemma_decimal_injective(a: nat, b: nat)
    requires
        decimal(a) == decimal(b),
    ensures
        a == b,
    decreases a,
{
    lemma_decimal(a);
    lemma_decimal(b);
    if a < 10 && b < 10 {
        assert(decimal(a) == seq![digit_char(a)]);
        assert(decimal(b) == seq![digit_char(b)]);
        assert(decimal(a)[0] == decimal(b)[0]);
        assert(seq![digit_char(a)][0] == digit_char(a));
        assert(seq![digit_char(b)][0] == digit_char(b));
        lemma_digit_char(a);
        assert(digit_char(b) == digit_char(a));
    } else if a >= 10 && b >= 10 {
        assert(decimal(a).drop_last() == decimal(a / 10));
        assert(decimal(b).drop_last() == decimal(b / 10));
        lemma_decimal_injective(a / 10, b / 10);
        assert(decimal(a).last() == digit_char(a % 10));
        assert(decimal(b).last() == digit_char(b % 10));
        lemma_digit_char(a % 10);
        assert(digit_char(b % 10) == digit_char(a % 10));
        assert(a % 10 == b % 10);
    }
}

proof fn lemma_voice_file(v: VoiceType, w: VoiceType)
    ensures
        colon_free(voice_file(v)),
        voice_file(v) == voice_file(w) ==> v == w,
{
    reveal_strlit("af_bella.bin");
    reveal_strlit("af_nicole.bin");
    reveal_strlit("af_sky.bin");
    reveal_strlit("am_fenrir.bin");
    reveal_strlit("am_michael.bin");
    reveal_strlit("am_puck.bin");
    reveal_strlit("bf_emma.bin");
    reveal_strlit("bf_isabella.bin");
    reveal_strlit("bf_lily.bin");
    reveal_strlit("bm_fable.bin");
    reveal_strlit("bm_george.bin");
    reveal_strlit("bm_lewis.bin");
    if voice_file(v) == voice_file(w) {
        assert(voice_file(v)[0] == voice_file(w)[0]);
        assert(voice_file(v)[1] == voice_file(w)[1]);
        assert(voice_file(v)[3] == voice_file(w)[3]);
    }
}

proof fn lemma_colon_position(x1: Seq<char>, d1: Seq<char>, x2: Seq<char>, d2: Seq<char>)
    requires
        x1 + seq![':'] + d1 == x2 + seq![':'] + d2,
        colon_free(d1),
    ensures
        x1.len() >= x2.len(),
{
    let s = x1 + seq![':'] + d1;
    let t = x2 + seq![':'] + d2;
    if x1.len() < x2.len() {
        let y1 = x1 + seq![':'];
        let y2 = x2 + seq![':'];
        let i = x2.len() as int;
        assert(y2[i] == ':');
        assert(t[i] == y2[i]);
        assert(s == y1 + d1);
        assert(t == y2 + d2);
        assert(s.len() == t.len());
        assert(i < t.len());
        assert(y1.len() == x1.len() + 1);
        assert(0 <= i - y1.len() < d1.len());
        assert(s[i] == d1[i - y1.len()]);
        assert(d1[i - y1.len()] != ':');
    }
}

proof fn lemma_split_last_colon(x1: Seq<char>, d1: Seq<char>, x2: Seq<char>, d2: Seq<char>)
    requires
        x1 + seq![':'] + d1 == x2 + seq![':'] + d2,
        colon_free(d1),
        colon_free(d2),
    ensures
        x1 == x2,
        d1 == d2,
{
    let s = x1 + seq![':'] + d1;
    let t = x2 + seq![':'] + d2;
    lemma_colon_position(x1, d1, x2, d2);
    lemma_colon_position(x2, d2, x1, d1);
    assert(x1 == s.subrange(0, x1.len() as int));
    assert(x2 == t.subrange(0, x2.len() as int));
    assert(d1 == s.subrange(x1.len() as int + 1, s.len() as int));
    assert(d2 == t.subrange(x2.len() as int + 1, t.len() as int));
}

/// Two requests share a cache key exactly when their normalized texts,
/// voices and speeds are all equal: the key is the same for identical inputs
/// and differs when any one of them differs.
pub proof fn lemma_cache_key_identifies(
    t1: Seq<char>,
    v1: VoiceType,
    s1: u32,
    t2: Seq<char>,
    v2: VoiceType,
    s2: u32,
)
    ensures
        cache_key(t1, v1, s1) == cache_key(t2, v2, s2) <==> (t1 == t2 && v1 == v2 && s1 == s2),
{
    if cache_key(t1, v1, s1) == cache_key(t2, v2, s2) {
        lemma_decimal(s1 as nat);
        lemma_decimal(s2 as nat);
        lemma_voice_file(v1, v2);
        lemma_voice_file(v2, v1);
        lemma_split_last_colon(
            t1 + seq![':'] + voice_file(v1),
            decimal(s1 as nat),
            t2 + seq![':'] + voice_file(v2),
            decimal(s2 as nat),
        );
        lemma_split_last_colon(t1, voice_file(v1), t2, voice_file(v2));
        lemma_decimal_injective(s1 as nat, s2 as nat);
    }
}

/// A validated request: its text normalized and its cache key built.
pub struct SynthesisRequest {
    pub text: String,
    pub voice: VoiceType,
    pub speed_bits: u32,
    pub cache_key: String,
}

/// Validates the speed, then normalizes the text and builds the cache key.
/// A speed outside [0.5, 2.0] is rejected before any other work.
pub fn prepare_request(text: &str, voice: VoiceType, speed_bits: u32) -> (r: Result<
    SynthesisRequest,
    TtsError,
>)
    ensures
        match r {
            Ok(q) => speed_in_range(speed_bits) && q.text@ == normalized(text@) && q.voice == voice
                && q.speed_bits == speed_bits && q.cache_key@ == cache_key(
                normalized(text@),
                voice,
                speed_bits,
            ),
            Err(e) => !speed_in_range(speed_bits) && e is ValidationError,
        },
{
    match validate_speed(speed_bits) {
        Ok(()) => {},
        Err(e) => {
            return Err(e);
        },
    }
    let normalized_text = normalize_text(text);
    let key = generate_cache_key(normalized_text.as_str(), &voice, speed_bits);
    Ok(SynthesisRequest { text: normalized_text, voice, speed_bits, cache_key: key })
}

/// How a synthesis starts: from a fresh cached waveform, or as a request that
/// must be synthesized.
pub enum SynthesisStart {
    Cached(Vec<u32>),
    Miss(SynthesisRequest),
}

/// The first steps of a synthesis: the speed is validated before anything
/// else (a rejected request leaves the cache untouched), the text is
/// normalized, and the cache is consulted at `now`, removing an expired
/// entry.
pub fn begin_synthesis(
    cache: &mut SynthesisCache,
    text: &str,
    voice: VoiceType,
    speed_bits: u32,
    now: u64,
) -> (r: Result<SynthesisStart, TtsError>)
    requires
        old(cache).wf(),
    ensures
        final(cache).wf(),
        final(cache).capacity() == old(cache).capacity(),
        final(cache).ttl() == old(cache).ttl(),
        !speed_in_range(speed_bits) ==> (r matches Err(e) && e is ValidationError && final(cache)@
            == old(cache)@),
        speed_in_range(speed_bits) ==> ({
            let key = cache_key(normalized(text@), voice, speed_bits);
            &&& final(cache)@ == after_lookup(old(cache)@, key, now, old(cache).ttl())
            &&& match lookup_result(old(cache)@, key, now, old(cache).ttl()) {
                Some(a) => r matches Ok(SynthesisStart::Cached(b)) && b@ == a,
                None => r matches Ok(SynthesisStart::Miss(q)) && q.text@ == normalized(text@)
                    && q.voice == voice && q.speed_bits == speed_bits && q.cache_key@ == key,
            }
        }),
{
    let request = match prepare_request(text, voice, speed_bits) {
        Ok(q) => q,
        Err(e) => {
            return Err(e);
        },
    };
    match cache.lookup(&request.cache_key, now) {
        Some(audio) => Ok(SynthesisStart::Cached(audio)),
        None => Ok(SynthesisStart::Miss(request)),
    }
}

/// The number of values a tensor of shape `dims` holds.
pub open spec fn dims_product(dims: Seq<i64>) -> int
    decreases dims.len(),
{
    if dims.len() == 0 {
        1
    } else {
        dims_product(dims.drop_last()) * dims.last()
    }
}

proof fn lemma_product_zero(dims: Seq<i64>, k: int)
    requires
        0 <= k < dims.len(),
        dims[k] == 0,
    ensures
        dims_product(dims) == 0,
    decreases dims.len(),
{
    if k < dims.len() - 1 {
        lemma_product_zero(dims.drop_last(), k);
    }
}

proof fn lemma_product_grows(dims: Seq<i64>, i: int)
    requires
        0 <= i <= dims.len(),
        forall|j: int| 0 <= j < dims.len() ==> #[trigger] dims[j] >= 1,
    ensures
        dims_product(dims) >= dims_product(dims.subrange(0, i)) >= 1,
    decreases dims.len(),
{
    if dims.len() == 0 {
        assert(dims.subrange(0, i) == dims);
    } else if i == dims.len() {
        assert(dims.subrange(0, i) == dims);
        lemma_product_grows(dims.drop_last(), 0);
        let a = dims_product(dims.drop_last());
        let b = dims.last() as int;
        assert(a * b >= 1) by (nonlinear_arith)
            requires
                a >= 1,
                b >= 1,
        ;
    } else {
        let p = dims.drop_last();
        assert(p.subrange(0, i) == dims.subrange(0, i));
        lemma_product_grows(p, i);
        let a = dims_product(p);
        let b = dims.last() as int;
        assert(a * b >= a) by (nonlinear_arith)
            requires
                a >= 1,
                b >= 1,
        ;
    }
}

/// Whether a tensor of shape `shape` holds exactly `len` values: no
/// dimension is negative and their product is `len`.
pub fn shape_holds(shape: &[i64], len: usize) -> (r: bool)
    ensures
        r == ((forall|i: int| 0 <= i < shape@.len() ==> #[trigger] shape@[i] >= 0) && dims_product(
            shape@,
        ) == len),
{
    let n = shape.len();
    let mut i: usize = 0;
    while i < n
        invariant
            i <= n,
            n == shape@.len(),
            forall|j: int| 0 <= j < i ==> #[trigger] shape@[j] >= 0,
        decreases n - i,
    {
        if shape[i] < 0 {
            return false;
        }
        i = i + 1;
    }
    i = 0;
    while i < n
        invariant
            i <= n,
            n == shape@.len(),
            forall|j: int| 0 <= j < n ==> #[trigger] shape@[j] >= 0,
            forall|j: int| 0 <= j < i ==> #[trigger] shape@[j] != 0,
        decreases n - i,
    {
        if shape[i] == 0 {
            proof {
                lemma_product_zero(shape@, i as int);
            }
            return len == 0;
        }
        i = i + 1;
    }
    assert(forall|j: int| 0 <= j < n ==> #[trigger] shape@[j] >= 1);
    let mut p: usize = 1;
    i = 0;
    assert(shape@.subrange(0, 0) =~= Seq::<i64>::empty());
    while i < n
        invariant
            i <= n,
            n == shape@.len(),
            forall|j: int| 0 <= j < n ==> #[trigger] shape@[j] >= 1,
            p as int == dims_product(shape@.subrange(0, i as int)),
            p <= len || i == 0,
            1 <= p,
        decreases n - i,
    {
        let d = shape[i];
        assert(shape@.subrange(0, i + 1).drop_last() == shape@.subrange(0, i as int));
        if d as u64 > len as u64 || p > len / (d as usize) {
            proof {
                let a = p as int;
                let b = d as int;
                let l = len as int;
                assert(a * b > l) by (nonlinear_arith)
                    requires
                        a >= 1,
                        b >= 1,
                        b > l || a > l / b,
                ;
                lemma_product_grows(shape@, i + 1);
            }
            return false;
        }
        proof {
            let a = p as int;
            let b = d as int;
            let l = len as int;
            assert(a * b <= l) by (nonlinear_arith)
                requires
                    a >= 1,
                    b >= 1,
                    b <= l,
                    a <= l / b,
            ;
            assert(a * b >= 1) by (nonlinear_arith)
                requires
                    a >= 1,
                    b >= 1,
            ;
        }
        p = p * (d as usize);
        i = i + 1;
    }
    assert(shape@.subrange(0, n as int) == shape@);
    p == len
}

/// The concatenation of `parts`.
pub open spec fn concat_all(parts: Seq<Seq<char>>) -> Seq<char>
    decreases parts.len(),
{
    if parts.len() == 0 {
        Seq::empty()
    } else {
        concat_all(parts.drop_last()) + parts.last()
    }
}

/// Turns the phonemizer's answer (its pieces, or why it failed) into the
/// phoneme string, or a phoneme error.
pub fn phonemes_from_parts(result: Result<Vec<String>, String>) -> (r: Result<String, TtsError>)
    ensures
        match result {
            Ok(parts) => r matches Ok(p) && p@ == concat_all(
                parts@.map_values(|s: String| s@),
            ),
            Err(m) => r matches Err(TtsError::PhonemeError(msg)) && msg@ == "Phonemizer error: "@
                + m@,
        },
{
    match result {
        Ok(parts) => {
            let ghost views = parts@.map_values(|s: String| s@);
            let mut out = String::new();
            let mut i: usize = 0;
            while i < parts.len()
                invariant
                    i <= parts.len(),
                    views == parts@.map_values(|s: String| s@),
                    out@ == concat_all(views.subrange(0, i as int)),
                decreases parts.len() - i,
            {
                assert(views.subrange(0, i + 1).drop_last() == views.subrange(0, i as int));
                out.append(parts[i].as_str());
                i = i + 1;
            }
            assert(views.subrange(0, parts.len() as int) == views);
            Ok(out)
        },
        Err(m) => {
            let mut msg = String::from_str("Phonemizer error: ");
            msg.append(m.as_str());
            Err(TtsError::PhonemeError(msg))
        },
    }
}

/// The tokens handed to the model for `phonemes`: their token ids with one
/// padding token on each side.
pub fn inference_tokens(vocab: &Vocabulary, phonemes: &str) -> (r: Vec<i64>)
    requires
        vocab.wf(),
    ensures
        r@ == seq![0i64] + tokens_of(phonemes@) + seq![0i64],
{
    pad_tokens(vocab.tokenize(phonemes))
}

} // verus!
