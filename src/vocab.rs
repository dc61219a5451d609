//! The phoneme vocabulary: a fixed table of symbols (padding, punctuation,
//! Latin letters and IPA symbols) whose positions are the token ids.
use crate::text::chars_of;
use vstd::prelude::*;

verus! {

/// Number of entries in the symbol table.
pub const VOCAB_SIZE: usize = 178;

/// The symbol table: the padding symbol, then punctuation and space, then the
/// Latin letters, then the IPA symbols. A symbol's token id is its position.
pub open spec fn symbols() -> Seq<char> {
    seq![
        '$',
        ';', ':', ',', '.', '!', '?', '¡', '¿', '—', '…', '"', '«',
        '»', '“', '”', ' ',
        'A', 'B', 'C', 'D', 'E', 'F', 'G', 'H', 'I', 'J', 'K', 'L',
        'M', 'N', 'O', 'P', 'Q', 'R', 'S', 'T', 'U', 'V', 'W', 'X',
        'Y', 'Z', 'a', 'b', 'c', 'd', 'e', 'f', 'g', 'h', 'i', 'j',
        'k', 'l', 'm', 'n', 'o', 'p', 'q', 'r', 's', 't', 'u', 'v',
        'w', 'x', 'y', 'z',
        'ɑ', 'ɐ', 'ɒ', 'æ', 'ɓ', 'ʙ', 'β', 'ɔ', 'ɕ', 'ç', 'ɗ', 'ɖ',
        'ð', 'ʤ', 'ə', 'ɘ', 'ɚ', 'ɛ', 'ɜ', 'ɝ', 'ɞ', 'ɟ', 'ʄ', 'ɡ',
        'ɠ', 'ɢ', 'ʛ', 'ɦ', 'ɧ', 'ħ', 'ɥ', 'ʜ', 'ɨ', 'ɪ', 'ʝ', 'ɭ',
        'ɬ', 'ɫ', 'ɮ', 'ʟ', 'ɱ', 'ɯ', 'ɰ', 'ŋ', 'ɳ', 'ɲ', 'ɴ', 'ø',
        'ɵ', 'ɸ', 'θ', 'œ', 'ɶ', 'ʘ', 'ɹ', 'ɺ', 'ɾ', 'ɻ', 'ʀ', 'ʁ',
        'ɽ', 'ʂ', 'ʃ', 'ʈ', 'ʧ', 'ʉ', 'ʊ', 'ʋ', 'ⱱ', 'ʌ', 'ɣ', 'ɤ',
        'ʍ', 'χ', 'ʎ', 'ʏ', 'ʑ', 'ʐ', 'ʒ', 'ʔ', 'ʡ', 'ʕ', 'ʢ', 'ǀ',
        'ǁ', 'ǂ', 'ǃ', 'ˈ', 'ˌ', 'ː', 'ˑ', 'ʼ', 'ʴ', 'ʰ', 'ʱ', 'ʲ',
        'ʷ', 'ˠ', 'ˤ', '˞', '↓', '↑', '→', '↗', '↘', '\'', '\u{329}', '\'',
        'ᵻ',
    ]
}

fn symbol_table() -> (r: Vec<char>)
    ensures
        r@ == symbols(),
{
    let v: Vec<char> = vec![
        '$',
        ';', ':', ',', '.', '!', '?', '¡', '¿', '—', '…', '"', '«',
        '»', '“', '”', ' ',
        'A', 'B', 'C', 'D', 'E', 'F', 'G', 'H', 'I', 'J', 'K', 'L',
        'M', 'N', 'O', 'P', 'Q', 'R', 'S', 'T', 'U', 'V', 'W', 'X',
        'Y', 'Z', 'a', 'b', 'c', 'd', 'e', 'f', 'g', 'h', 'i', 'j',
        'k', 'l', 'm', 'n', 'o', 'p', 'q', 'r', 's', 't', 'u', 'v',
        'w', 'x', 'y', 'z',
        'ɑ', 'ɐ', 'ɒ', 'æ', 'ɓ', 'ʙ', 'β', 'ɔ', 'ɕ', 'ç', 'ɗ', 'ɖ',
        'ð', 'ʤ', 'ə', 'ɘ', 'ɚ', 'ɛ', 'ɜ', 'ɝ', 'ɞ', 'ɟ', 'ʄ', 'ɡ',
        'ɠ', 'ɢ', 'ʛ', 'ɦ', 'ɧ', 'ħ', 'ɥ', 'ʜ', 'ɨ', 'ɪ', 'ʝ', 'ɭ',
        'ɬ', 'ɫ', 'ɮ', 'ʟ', 'ɱ', 'ɯ', 'ɰ', 'ŋ', 'ɳ', 'ɲ', 'ɴ', 'ø',
        'ɵ', 'ɸ', 'θ', 'œ', 'ɶ', 'ʘ', 'ɹ', 'ɺ', 'ɾ', 'ɻ', 'ʀ', 'ʁ',
        'ɽ', 'ʂ', 'ʃ', 'ʈ', 'ʧ', 'ʉ', 'ʊ', 'ʋ', 'ⱱ', 'ʌ', 'ɣ', 'ɤ',
        'ʍ', 'χ', 'ʎ', 'ʏ', 'ʑ', 'ʐ', 'ʒ', 'ʔ', 'ʡ', 'ʕ', 'ʢ', 'ǀ',
        'ǁ', 'ǂ', 'ǃ', 'ˈ', 'ˌ', 'ː', 'ˑ', 'ʼ', 'ʴ', 'ʰ', 'ʱ', 'ʲ',
        'ʷ', 'ˠ', 'ˤ', '˞', '↓', '↑', '→', '↗', '↘', '\'', '\u{329}', '\'',
        'ᵻ',
    ];
    assert(v@ =~= symbols());
    v
}

/// Position of the last occurrence of `c` in `s`.
pub open spec fn last_index_of(s: Seq<char>, c: char) -> Option<int>
    decreases s.len(),
{
    if s.len() == 0 {
        None
    } else if s.last() == c {
        Some(s.len() - 1)
    } else {
        last_index_of(s.drop_last(), c)
    }
}

/// The token id of `c`. A symbol listed twice takes its later position.
pub open spec fn token_of(c: char) -> Option<int> {
    last_index_of(symbols(), c)
}

/// The symbol that token `t` stands for: only ids that some symbol maps to
/// are known.
pub open spec fn symbol_of(t: int) -> Option<char> {
    if 0 <= t < symbols().len() && token_of(symbols()[t]) == Some(t) {
        Some(symbols()[t])
    } else {
        None
    }
}

/// The tokens of `s`: each character in the table maps to its id, in order;
/// others are dropped.
pub open spec fn tokens_of(s: Seq<char>) -> Seq<i64>
    decreases s.len(),
{
    if s.len() == 0 {
        Seq::empty()
    } else {
        let rest = tokens_of(s.drop_last());
        match token_of(s.last()) {
            Some(t) => rest.push(t as i64),
            None => rest,
        }
    }
}

/// The text of `ts`: each known id maps to its symbol, in order; others are
/// dropped.
pub open spec fn text_of_tokens(ts: Seq<i64>) -> Seq<char>
    decreases ts.len(),
{
    if ts.len() == 0 {
        Seq::empty()
    } else {
        let rest = text_of_tokens(ts.drop_last());
        match symbol_of(ts.last() as int) {
            Some(c) => rest.push(c),
            None => rest,
        }
    }
}

/// Every character of `s` is in the symbol table.
pub open spec fn in_vocabulary(s: Seq<char>) -> bool {
    forall|i: int| 0 <= i < s.len() ==> (#[trigger] token_of(s[i])) is Some
}

proof fn lemma_last_index_of(s: Seq<char>, c: char)
    ensures
        match last_index_of(s, c) {
            Some(i) => 0 <= i < s.len() && s[i] == c,
            None => true,
        },
    decreases s.len(),
{
    if s.len() > 0 && s.last() != c {
        lemma_last_index_of(s.drop_last(), c);
    }
}

/// A character that has a token id is given back by that id.
pub proof fn lemma_symbol_of_token(c: char)
    requires
        token_of(c) is Some,
    ensures
        symbol_of(token_of(c)->0) == Some(c),
{
    lemma_last_index_of(symbols(), c);
}

/// Detokenizing the tokens of a text made only of table symbols gives the
/// text back.
pub proof fn lemma_round_trip(s: Seq<char>)
    requires
        in_vocabulary(s),
    ensures
        text_of_tokens(tokens_of(s)) == s,
    decreases s.len(),
{
    if s.len() > 0 {
        let p = s.drop_last();
        assert forall|i: int| 0 <= i < p.len() implies (#[trigger] token_of(p[i])) is Some by {
            assert(p[i] == s[i]);
        }
        lemma_round_trip(p);
        assert(token_of(s[s.len() - 1]) is Some);
        lemma_symbol_of_token(s.last());
        let t = token_of(s.last())->0;
        let ts = tokens_of(p).push(t as i64);
        assert(ts.drop_last() == tokens_of(p));
        assert(s == p.push(s.last()));
    }
}

/// The symbol table, built once and shared by tokenization and its inverse.
pub struct Vocabulary {
    table: Vec<char>,
}

impl Vocabulary {
    pub closed spec fn wf(&self) -> bool {
        self.table@ == symbols()
    }

    pub fn new() -> (r: Vocabulary)
        ensures
            r.wf(),
    {
        Vocabulary { table: symbol_table() }
    }

    /// The token id of `c`, if `c` is in the table.
    pub fn token_id(&self, c: char) -> (r: Option<usize>)
        requires
            self.wf(),
        ensures
            match r {
                Some(i) => token_of(c) == Some(i as int),
                None => token_of(c) is None,
            },
    {
        let mut j: usize = self.table.len();
        assert(symbols().subrange(0, j as int) == symbols());
        while j > 0
            invariant
                j <= self.table.len(),
                self.wf(),
                last_index_of(symbols().subrange(0, j as int), c) == token_of(c),
            decreases j,
        {
            let sub = Ghost(symbols().subrange(0, j as int));
            assert(sub@.drop_last() == symbols().subrange(0, j - 1));
            if self.table[j - 1] == c {
                return Some(j - 1);
            }
            j = j - 1;
        }
        None
    }

    /// The symbol that token `t` stands for, if any.
    pub fn symbol(&self, t: i64) -> (r: Option<char>)
        requires
            self.wf(),
        ensures
            r == symbol_of(t as int),
    {
        if 0 <= t && t < VOCAB_SIZE as i64 {
            let c = self.table[t as usize];
            proof {
                lemma_last_index_of(symbols(), c);
            }
            match self.token_id(c) {
                Some(i) => {
                    if i == t as usize {
                        Some(c)
                    } else {
                        None
                    }
                },
                None => None,
            }
        } else {
            None
        }
    }

    /// Token ids of the characters of `phonemes` that are in the table, in order.
    pub fn tokenize(&self, phonemes: &str) -> (r: Vec<i64>)
        requires
            self.wf(),
        ensures
            r@ == tokens_of(phonemes@),
    {
        let cs = chars_of(phonemes);
        let mut out: Vec<i64> = Vec::new();
        let mut i: usize = 0;
        while i < cs.len()
            invariant
                self.wf(),
                i <= cs.len(),
                cs@ == phonemes@,
                out@ == tokens_of(cs@.subrange(0, i as int)),
            decreases cs.len() - i,
        {
            let ghost pre = cs@.subrange(0, i as int);
            assert(cs@.subrange(0, i + 1).drop_last() == pre);
            match self.token_id(cs[i]) {
                Some(t) => out.push(t as i64),
                None => {},
            }
            i = i + 1;
        }
        assert(cs@.subrange(0, cs.len() as int) == cs@);
        out
    }

    /// The symbols of the known ids in `tokens`, in order.
    pub fn detokenize(&self, tokens: &[i64]) -> (r: String)
        requires
            self.wf(),
        ensures
            r@ == text_of_tokens(tokens@),
    {
        let mut out = String::new();
        let mut i: usize = 0;
        while i < tokens.len()
            invariant
                self.wf(),
                i <= tokens.len(),
                out@ == text_of_tokens(tokens@.subrange(0, i as int)),
            decreases tokens.len() - i,
        {
            let ghost pre = tokens@.subrange(0, i as int);
            assert(tokens@.subrange(0, i + 1).drop_last() == pre);
            match self.symbol(tokens[i]) {
                Some(c) => out.push(c),
                None => {},
            }
            i = i + 1;
        }
        assert(tokens@.subrange(0, tokens.len() as int) == tokens@);
        out
    }
}

/// Converts a string of phonemes into token ids, dropping unknown characters.
pub fn tokenize(phonemes: &str) -> (r: Vec<i64>)
    ensures
        r@ == tokens_of(phonemes@),
{
    Vocabulary::new().tokenize(phonemes)
}

/// Converts token ids back into a string of phonemes, dropping unknown ids.
pub fn tokens_to_phonemes(tokens: &[i64]) -> (r: String)
    ensures
        r@ == text_of_tokens(tokens@),
{
    Vocabulary::new().detokenize(tokens)
}

/// The tokens handed to the model: one padding token (id 0) on each side.
pub fn pad_tokens(tokens: Vec<i64>) -> (r: Vec<i64>)
    ensures
        r@ == seq![0i64] + tokens@ + seq![0i64],
{
    let mut out: Vec<i64> = Vec::new();
    out.push(0);
    let mut i: usize = 0;
    while i < tokens.len()
        invariant
            i <= tokens.len(),
            out@ == seq![0i64] + tokens@.subrange(0, i as int),
        decreases tokens.len() - i,
    {
        out.push(tokens[i]);
        i = i + 1;
    }
    assert(tokens@.subrange(0, tokens.len() as int) == tokens@);
    out.push(0);
    out
}

} // verus!
