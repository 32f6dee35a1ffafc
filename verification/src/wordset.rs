//! Frequency-weighted selection of example words that cover a target
//! character set under a size budget, with the supporting operations
//! of a built set: shuffling and relocating the current word.
//!
//! All randomness flows through an injected `rand` generator, so a
//! training session can be reproduced from a seed.

use vstd::prelude::*;
use vstd::string::StrSliceExecFns;

use crate::chars::chars_of;
use crate::rng::choose_char;
use crate::rng::choose_weighted;
use crate::rng::rng_range;
use crate::rng::shuffle_vec;
use crate::romaji::to_romaji;
use crate::split::copy_chars;
use crate::split::lemma_split_len;
use crate::split::spec_split;
use crate::split::spec_to_romaji;

verus! {

/// The hiragana characters offered for training.
pub fn set_hiragana() -> (r: &'static str)
    ensures
        r@ == spec_set_hiragana(),
{
    "あいうえおかきくけこがぎぐげごさしすせそざじずぜぞたちつてとだづでどなにぬねのはひふへほばびぶべぼぱぴぷぽまみむめもやゆよらりるれろわん"
}

/// The view of the hiragana training set.
pub open spec fn spec_set_hiragana() -> Seq<char> {
    "あいうえおかきくけこがぎぐげごさしすせそざじずぜぞたちつてとだづでどなにぬねのはひふへほばびぶべぼぱぴぷぽまみむめもやゆよらりるれろわん"@
}

/// The katakana characters offered for training.
pub fn set_katakana() -> (r: &'static str)
    ensures
        r@ == spec_set_katakana(),
{
    "アイウエオカキクケコガギグゲゴサシスセソザジズゼゾタチツテトダヂデドナニヌネノハヒフヘホバビブベボパピプペポマミムメモヤユヨラリルレロワヲン"
}

/// The view of the katakana training set.
pub open spec fn spec_set_katakana() -> Seq<char> {
    "アイウエオカキクケコガギグゲゴサシスセソザジズゼゾタチツテトダヂデドナニヌネノハヒフヘホバビブベボパピプペポマミムメモヤユヨラリルレロワヲン"@
}

/// Hiragana and katakana together.
pub fn set_all() -> (r: &'static str)
    ensures
        r@ == spec_set_all(),
{
    "あいうえおかきくけこがぎぐげごさしすせそざじずぜぞたちつてとだづでどなにぬねのはひふへほばびぶべぼぱぴぷぽまみむめもやゆよらりるれろわんアイウエオカキクケコガギグゲゴサシスセソザジズゼゾタチツテトダヂデドナニヌネノハヒフヘホバビブベボパピプペポマミムメモヤユヨラリルレロワヲン"
}

/// The view of the combined training set.
pub open spec fn spec_set_all() -> Seq<char> {
    "あいうえおかきくけこがぎぐげごさしすせそざじずぜぞたちつてとだづでどなにぬねのはひふへほばびぶべぼぱぴぷぽまみむめもやゆよらりるれろわんアイウエオカキクケコガギグゲゴサシスセソザジズゼゾタチツテトダヂデドナニヌネノハヒフヘホバビブベボパピプペポマミムメモヤユヨラリルレロワヲン"@
}

/// Hiragana, katakana and the rarely used characters.
pub fn set_all_rare() -> (r: &'static str)
    ensures
        r@ == spec_set_all_rare(),
{
    "あいうえおかきくけこがぎぐげごさしすせそざじずぜぞたちつてとだづでどなにぬねのはひふへほばびぶべぼぱぴぷぽまみむめもやゆよらりるれろわんアイウエオカキクケコガギグゲゴサシスセソザジズゼゾタチツテトダヂデドナニヌネノハヒフヘホバビブベボパピプペポマミムメモヤユヨラリルレロワヲンぺぢヌヅを"
}

/// The view of the full training set with rare characters.
pub open spec fn spec_set_all_rare() -> Seq<char> {
    "あいうえおかきくけこがぎぐげごさしすせそざじずぜぞたちつてとだづでどなにぬねのはひふへほばびぶべぼぱぴぷぽまみむめもやゆよらりるれろわんアイウエオカキクケコガギグゲゴサシスセソザジズゼゾタチツテトダヂデドナニヌネノハヒフヘホバビブベボパピプペポマミムメモヤユヨラリルレロワヲンぺぢヌヅを"@
}

/// A corpus word with its usage frequency.
#[derive(Debug, Clone)]
pub struct Word {
    /// The word text.
    pub word: String,
    /// Its frequency weight.
    pub count: u64,
}

/// Copies a word so that contracts can speak of the copy as the same
/// value.
fn copy_word(w: &Word) -> (r: Word)
    ensures
        r == *w,
{
    Word { word: w.word.clone(), count: w.count }
}

/// The total frequency weight of a word sequence.
pub open spec fn sum_counts(ws: Seq<Word>) -> int
    decreases ws.len(),
{
    if ws.len() == 0 {
        0
    } else {
        ws[0].count + sum_counts(ws.drop_first())
    }
}

/// The total character count of a word sequence.
pub open spec fn sum_word_chars(ws: Seq<Word>) -> int
    decreases ws.len(),
{
    if ws.len() == 0 {
        0
    } else {
        ws[0].word@.len() + sum_word_chars(ws.drop_first())
    }
}

/// The total weight of a candidate list.
pub open spec fn sum_weights(cs: Seq<(usize, u64)>) -> int
    decreases cs.len(),
{
    if cs.len() == 0 {
        0
    } else {
        cs[0].1 + sum_weights(cs.drop_first())
    }
}

/// Appending a word adds its frequency to the total.
proof fn lemma_sum_counts_push(ws: Seq<Word>, w: Word)
    ensures
        sum_counts(ws.push(w)) == sum_counts(ws) + w.count,
    decreases ws.len(),
{
    assert(ws.push(w).len() == ws.len() + 1);
    assert(ws.push(w)[0 as int] == (if ws.len() == 0 { w } else { ws[0 as int] }));
    assert(ws.push(w).len() == ws.len() + 1);
    assert(ws.push(w)[0 as int] == (if ws.len() == 0 { w } else { ws[0 as int] }));
    if ws.len() == 0 {
        assert(ws.push(w).drop_first() =~~= Seq::<Word>::empty());
        assert(sum_counts(Seq::<Word>::empty()) == 0);
        assert(sum_counts(ws) == 0);
    } else {
        assert(ws.push(w).drop_first() =~~= ws.drop_first().push(w));
        lemma_sum_counts_push(ws.drop_first(), w);
    }
}

/// Appending a word adds its characters to the total.
proof fn lemma_sum_word_chars_push(ws: Seq<Word>, w: Word)
    ensures
        sum_word_chars(ws.push(w)) == sum_word_chars(ws) + w.word@.len(),
    decreases ws.len(),
{
    assert(ws.push(w).len() == ws.len() + 1);
    assert(ws.push(w)[0 as int] == (if ws.len() == 0 { w } else { ws[0 as int] }));
    assert(ws.push(w).len() == ws.len() + 1);
    assert(ws.push(w)[0 as int] == (if ws.len() == 0 { w } else { ws[0 as int] }));
    if ws.len() == 0 {
        assert(ws.push(w).drop_first() =~~= Seq::<Word>::empty());
        assert(sum_word_chars(Seq::<Word>::empty()) == 0);
        assert(sum_word_chars(ws) == 0);
    } else {
        assert(ws.push(w).drop_first() =~~= ws.drop_first().push(w));
        lemma_sum_word_chars_push(ws.drop_first(), w);
    }
}

/// Appending a candidate adds its weight to the total.
proof fn lemma_sum_weights_push(cs: Seq<(usize, u64)>, c: (usize, u64))
    ensures
        sum_weights(cs.push(c)) == sum_weights(cs) + c.1,
    decreases cs.len(),
{
    assert(cs.push(c).len() == cs.len() + 1);
    assert(cs.push(c)[0 as int] == (if cs.len() == 0 { c } else { cs[0 as int] }));
    if cs.len() == 0 {
        assert(cs.push(c).drop_first() =~~= Seq::<(usize, u64)>::empty());
        assert(sum_weights(Seq::<(usize, u64)>::empty()) == 0);
        assert(sum_weights(cs) == 0);
    } else {
        assert(cs.push(c).drop_first() =~~= cs.drop_first().push(c));
        lemma_sum_weights_push(cs.drop_first(), c);
    }
}

/// A character a romanization may consist of: an ASCII letter, a
/// digit or the hyphen.
pub open spec fn spec_valid_char(c: char) -> bool {
    c == '-' || ('a' <= c && c <= 'z') || ('A' <= c && c <= 'Z') || ('0' <= c && c <= '9')
}

/// Whether a word is eligible for the corpus: its romanization is
/// non-empty and consists only of ASCII letters, digits and hyphens.
pub open spec fn spec_valid_word(w: Word) -> bool {
    &&& spec_to_romaji(w.word@).len() > 0
    &&& forall|i: int|
        0 <= i < spec_to_romaji(w.word@).len() ==> spec_valid_char(
            #[trigger] spec_to_romaji(w.word@)[i],
        )
}

/// Whether the word's romanization is ASCII letters, digits and
/// hyphens only; mirrors [`spec_valid_word`].
fn is_valid_word(w: &Word) -> (r: bool)
    ensures
        r == spec_valid_word(*w),
{
    let romaji = to_romaji(w.word.as_str());
    let cs = chars_of(romaji.as_str());
    if cs.len() == 0 {
        return false;
    }
    let mut i: usize = 0;
    while i < cs.len()
        invariant
            i <= cs@.len(),
            cs@ == spec_to_romaji(w.word@),
            forall|j: int| 0 <= j < i ==> spec_valid_char(#[trigger] cs@[j]),
        decreases cs@.len() - i,
    {
        let c = cs[i];
        let ok = c == '-' || ('a' <= c && c <= 'z') || ('A' <= c && c <= 'Z') || ('0' <= c && c
            <= '9');
        if !ok {
            return false;
        }
        i = i + 1;
    }
    true
}

/// The corpus a raw word list yields: the eligible words in order.
/// A word whose weight or character count would push the corpus
/// totals beyond what the machine arithmetic holds is dropped with
/// the malformed ones; no realistic corpus comes near those totals.
pub open spec fn spec_corpus(raw: Seq<Word>) -> Seq<Word>
    decreases raw.len(),
{
    if raw.len() == 0 {
        Seq::empty()
    } else {
        let prev = spec_corpus(raw.drop_last());
        let w = raw.last();
        if spec_valid_word(w) && sum_counts(prev) + w.count <= u64::MAX && sum_word_chars(prev)
            + w.word@.len() <= usize::MAX {
            prev.push(w)
        } else {
            prev
        }
    }
}

/// Every word the corpus keeps is eligible.
proof fn lemma_corpus_valid(raw: Seq<Word>)
    ensures
        forall|i: int|
            0 <= i < spec_corpus(raw).len() ==> spec_valid_word(#[trigger] spec_corpus(raw)[i]),
    decreases raw.len(),
{
    if raw.len() > 0 {
        lemma_corpus_valid(raw.drop_last());
        let prev = spec_corpus(raw.drop_last());
        assert forall|i: int|
            0 <= i < spec_corpus(raw).len() implies spec_valid_word(
            #[trigger] spec_corpus(raw)[i],
        ) by {
            if i < prev.len() {
                assert(spec_corpus(raw)[i] == prev[i]);
            }
        }
    }
}

/// An eligible word is never empty: the romanization of an empty
/// text is empty, and eligibility demands a non-empty romanization.
proof fn lemma_valid_word_len(w: Word)
    requires
        spec_valid_word(w),
    ensures
        w.word@.len() > 0,
{
    if w.word@.len() == 0 {
        lemma_split_len(w.word@);
        assert(spec_split(w.word@) =~~= Seq::<Seq<char>>::empty());
        assert(spec_to_romaji(w.word@) =~= Seq::<char>::empty());
    }
}

/// A word corpus restricted to words whose romanization is plain
/// ASCII, computed once and handed to the word-set builder by shared
/// reference.
#[derive(Debug, Clone)]
pub struct WordCorpus {
    words: Vec<Word>,
}

impl View for WordCorpus {
    type V = Seq<Word>;

    closed spec fn view(&self) -> Seq<Word> {
        self.words@
    }
}

impl WordCorpus {
    /// The corpus totals stay within machine arithmetic; established
    /// by the constructor and relied on by the builder.
    pub open spec fn wf(&self) -> bool {
        &&& sum_counts(self@) <= u64::MAX
        &&& sum_word_chars(self@) <= usize::MAX
        &&& forall|i: int| 0 <= i < self@.len() ==> spec_valid_word(#[trigger] self@[i])
    }

    /// Builds the corpus from raw (word, frequency) pairs, keeping
    /// exactly the eligible words in their given order.
    pub fn new(raw: &Vec<Word>) -> (c: WordCorpus)
        ensures
            c@ == spec_corpus(raw@),
            c.wf(),
    {
        let mut words: Vec<Word> = Vec::new();
        let mut total: u64 = 0;
        let mut tchars: usize = 0;
        let mut i: usize = 0;
        proof {
            assert(raw@.take(0) =~~= Seq::<Word>::empty());
        }
        while i < raw.len()
            invariant
                i <= raw@.len(),
                words@ == spec_corpus(raw@.take(i as int)),
                total == sum_counts(words@),
                tchars == sum_word_chars(words@),
            decreases raw@.len() - i,
        {
            let w = &raw[i];
            proof {
                assert(raw@.take(i as int + 1).drop_last() =~~= raw@.take(i as int));
                assert(raw@.take(i as int + 1).last() == raw@[i as int]);
            }
            if is_valid_word(w) {
                let wl = w.word.as_str().unicode_len();
                if w.count <= u64::MAX - total && wl <= usize::MAX - tchars {
                    proof {
                        lemma_sum_counts_push(words@, raw@[i as int]);
                        lemma_sum_word_chars_push(words@, raw@[i as int]);
                    }
                    total = total + w.count;
                    tchars = tchars + wl;
                    words.push(copy_word(w));
                }
            }
            i = i + 1;
        }
        proof {
            assert(raw@.take(raw@.len() as int) =~~= raw@);
            lemma_corpus_valid(raw@);
        }
        WordCorpus { words }
    }

    /// The words of the corpus, in corpus order.
    pub fn words(&self) -> (r: &Vec<Word>)
        ensures
            r@ == self@,
    {
        &self.words
    }
}

/// Whether `idx` exhibits `words` as a selection from `corpus`: one
/// word per strictly increasing corpus position.
pub open spec fn selection_of(words: Seq<Word>, corpus: Seq<Word>, idx: Seq<int>) -> bool {
    &&& idx.len() == words.len()
    &&& forall|k: int|
        0 <= k < idx.len() ==> 0 <= #[trigger] idx[k] < corpus.len() && words[k] == corpus[idx[k]]
    &&& forall|k: int| 0 < k < idx.len() ==> idx[k - 1] < #[trigger] idx[k]
}

/// Whether any word of the sequence contains the character.
pub open spec fn covers(ws: Seq<Word>, c: char) -> bool {
    exists|i: int| 0 <= i < ws.len() && ws[i].word@.contains(c)
}

/// Whether any word of the corpus contains the character with a
/// positive frequency; only such a word can ever be picked for it.
pub open spec fn coverable(ws: Seq<Word>, c: char) -> bool {
    exists|i: int| 0 <= i < ws.len() && ws[i].word@.contains(c) && ws[i].count > 0
}

/// Whether a flagged word contains the character.
pub open spec fn flags_cover(ws: Seq<Word>, flags: Seq<bool>, c: char) -> bool {
    exists|i: int| 0 <= i < ws.len() && i < flags.len() && flags[i] && ws[i].word@.contains(c)
}

/// The characters held by the flagged words from index `i` on.
spec fn sel_chars(ws: Seq<Word>, flags: Seq<bool>, i: int) -> int
    decreases ws.len() - i,
    when 0 <= i <= ws.len() && flags.len() == ws.len()
{
    if i >= ws.len() {
        0
    } else {
        (if flags[i] {
            ws[i].word@.len() as int
        } else {
            0
        }) + sel_chars(ws, flags, i + 1)
    }
}

/// The frequency weight of the words from index `i` on.
spec fn cnts_from(ws: Seq<Word>, i: int) -> int
    decreases ws.len() - i,
    when 0 <= i <= ws.len()
{
    if i >= ws.len() {
        0
    } else {
        ws[i].count + cnts_from(ws, i + 1)
    }
}

/// The flagged characters never exceed the total characters of the
/// remaining words.
proof fn lemma_sel_chars_le(ws: Seq<Word>, flags: Seq<bool>, i: int)
    requires
        0 <= i <= ws.len(),
        flags.len() == ws.len(),
    ensures
        0 <= sel_chars(ws, flags, i) <= sum_word_chars(ws.skip(i)),
    decreases ws.len() - i,
{
    if i < ws.len() {
        lemma_sel_chars_le(ws, flags, i + 1);
        assert(ws.skip(i).drop_first() =~~= ws.skip(i + 1));
        assert(ws.skip(i)[0] == ws[i]);
    }
}

/// Flagging one unflagged word adds exactly its characters.
proof fn lemma_sel_chars_update(ws: Seq<Word>, flags: Seq<bool>, j: int, i: int)
    requires
        0 <= i <= ws.len(),
        flags.len() == ws.len(),
        0 <= j < ws.len(),
        !flags[j],
    ensures
        sel_chars(ws, flags.update(j, true), i) == sel_chars(ws, flags, i) + (if j >= i {
            ws[j].word@.len() as int
        } else {
            0
        }),
    decreases ws.len() - i,
{
    if i < ws.len() {
        lemma_sel_chars_update(ws, flags, j, i + 1);
    }
}

/// The tail weights are the total weight of the tail.
proof fn lemma_cnts_from(ws: Seq<Word>, i: int)
    requires
        0 <= i <= ws.len(),
    ensures
        cnts_from(ws, i) == sum_counts(ws.skip(i)),
    decreases ws.len() - i,
{
    if i < ws.len() {
        lemma_cnts_from(ws, i + 1);
        assert(ws.skip(i).drop_first() =~~= ws.skip(i + 1));
        assert(ws.skip(i)[0] == ws[i]);
    } else {
        assert(ws.skip(i) =~~= Seq::<Word>::empty());
    }
}

/// Weights are never negative.
proof fn lemma_cnts_from_nonneg(ws: Seq<Word>, i: int)
    requires
        0 <= i <= ws.len(),
    ensures
        cnts_from(ws, i) >= 0,
    decreases ws.len() - i,
{
    if i < ws.len() {
        lemma_cnts_from_nonneg(ws, i + 1);
    }
}

/// Flagging one more word keeps everything it covered and adds at
/// most the characters of that word.
proof fn lemma_flags_cover_mono(ws: Seq<Word>, flags: Seq<bool>, j: int)
    requires
        flags.len() == ws.len(),
        0 <= j < ws.len(),
    ensures
        forall|c: char|
            flags_cover(ws, flags, c) ==> #[trigger] flags_cover(ws, flags.update(j, true), c),
        forall|c: char|
            #[trigger] flags_cover(ws, flags.update(j, true), c) ==> flags_cover(ws, flags, c)
                || ws[j].word@.contains(c),
        forall|c: char|
            ws[j].word@.contains(c) ==> #[trigger] flags_cover(ws, flags.update(j, true), c),
{
    let flags2 = flags.update(j, true);
    assert forall|c: char| flags_cover(ws, flags, c) implies #[trigger] flags_cover(
        ws,
        flags2,
        c,
    ) by {
        let i = choose|i: int|
            0 <= i < ws.len() && i < flags.len() && flags[i] && ws[i].word@.contains(c);
        assert(flags2[i]);
    }
    assert forall|c: char| #[trigger] flags_cover(ws, flags2, c) implies flags_cover(ws, flags, c)
        || ws[j].word@.contains(c) by {
        let i = choose|i: int|
            0 <= i < ws.len() && i < flags2.len() && flags2[i] && ws[i].word@.contains(c);
        if i != j {
            assert(flags[i]);
        }
    }
    assert forall|c: char| ws[j].word@.contains(c) implies #[trigger] flags_cover(
        ws,
        flags2,
        c,
    ) by {
        assert(flags2[j] && ws[j].word@.contains(c));
    }
}

/// Whether the word holds the character; mirrors `Seq::contains` on
/// the word's characters.
fn word_contains(w: &Word, c: char) -> (r: bool)
    ensures
        r == w.word@.contains(c),
{
    let wc = chars_of(w.word.as_str());
    let mut i: usize = 0;
    while i < wc.len()
        invariant
            i <= wc@.len(),
            wc@ == w.word@,
            forall|j: int| 0 <= j < i ==> wc@[j] != c,
        decreases wc@.len() - i,
    {
        if wc[i] == c {
            return true;
        }
        i = i + 1;
    }
    false
}

/// Whether the character vector holds the character.
fn contains_char(v: &Vec<char>, c: char) -> (r: bool)
    ensures
        r == v@.contains(c),
{
    let mut i: usize = 0;
    while i < v.len()
        invariant
            i <= v@.len(),
            forall|j: int| 0 <= j < i ==> v@[j] != c,
        decreases v@.len() - i,
    {
        if v[i] == c {
            return true;
        }
        i = i + 1;
    }
    false
}

/// Removes the character from a duplicate-free vector, if present.
fn remove_char(v: &mut Vec<char>, c: char)
    requires
        forall|x: int, y: int| 0 <= x < y < old(v)@.len() ==> old(v)@[x] != old(v)@[y],
    ensures
        forall|x: int, y: int| 0 <= x < y < final(v)@.len() ==> final(v)@[x] != final(v)@[y],
        forall|d: char| final(v)@.contains(d) <==> (old(v)@.contains(d) && d != c),
        old(v)@.contains(c) ==> final(v)@.len() == old(v)@.len() - 1,
        !old(v)@.contains(c) ==> final(v)@ == old(v)@,
{
    let ghost v0 = v@;
    let mut i: usize = 0;
    while i < v.len()
        invariant
            i <= v@.len(),
            v@ == v0,
            v0 == old(v)@,
            forall|x: int, y: int| 0 <= x < y < v0.len() ==> v0[x] != v0[y],
            forall|j: int| 0 <= j < i ==> v@[j] != c,
        decreases v@.len() - i,
    {
        if v[i] == c {
            proof {
                assert(v0[i as int] == c);
            }
            v.remove(i);
            proof {
                assert(v0.contains(c)) by {
                    assert(v0[i as int] == c);
                }
                v0.remove_ensures(i as int);
                assert forall|index: int| 0 <= index < i implies v@[index] == v0[index] by {
                    assert(v0.remove(i as int)[index] == v0[index]);
                }
                assert forall|index: int| i <= index < v0.len() - 1 implies v@[index] == v0[
                    index + 1
                ] by {
                    assert(v0.remove(i as int)[index] == v0[index + 1]);
                }
                assert(v@.len() == v0.len() - 1);
                assert forall|x: int, y: int| 0 <= x < y < v@.len() implies v@[x] != v@[y] by {
                    if y < i {
                        assert(v@[x] == v0[x]);
                        assert(v@[y] == v0[y]);
                    } else if x < i {
                        assert(v@[x] == v0[x]);
                        assert(v@[y] == v0[y + 1]);
                    } else {
                        assert(v@[x] == v0[x + 1]);
                        assert(v@[y] == v0[y + 1]);
                    }
                }
                assert forall|d: char| v@.contains(d) implies (v0.contains(d) && d
                    != c) by {
                    let k = choose|k: int| 0 <= k < v@.len() && v@[k] == d;
                    if k < i {
                        assert(v@[k] == v0[k]);
                        assert(v0[k] == d);
                    } else {
                        assert(v@[k] == v0[k + 1]);
                        assert(v0[k + 1] == d);
                    }
                }
                assert forall|d: char| v0.contains(d) && d != c implies v@.contains(
                    d,
                ) by {
                    let k = choose|k: int| 0 <= k < v0.len() && v0[k] == d;
                    if k < i {
                        assert(v@[k] == v0[k]);
                        assert(v@[k] == d);
                    } else {
                        assert(v0[i as int] == c);
                        assert(k != i);
                        assert(v@[k - 1] == v0[k]);
                        assert(v@[k - 1] == d);
                    }
                }
            }
            return ;
        }
        i = i + 1;
    }
    proof {
        assert(!v@.contains(c));
    }
}

/// Sorts a duplicate-free character vector into increasing order by
/// repeatedly extracting the least remaining character.
fn sort_chars(v: &mut Vec<char>)
    requires
        forall|x: int, y: int| 0 <= x < y < old(v)@.len() ==> old(v)@[x] != old(v)@[y],
    ensures
        forall|x: int, y: int| 0 <= x < y < final(v)@.len() ==> final(v)@[x] < final(v)@[y],
        forall|d: char| final(v)@.contains(d) <==> old(v)@.contains(d),
        final(v)@.len() == old(v)@.len(),
{
    let ghost v0 = v@;
    let mut out: Vec<char> = Vec::new();
    while v.len() > 0
        invariant
            out@.len() + v@.len() == v0.len(),
            forall|x: int, y: int| 0 <= x < y < v@.len() ==> v@[x] != v@[y],
            forall|x: int, y: int| 0 <= x < y < out@.len() ==> out@[x] < out@[y],
            forall|x: int, y: int|
                0 <= x < out@.len() && 0 <= y < v@.len() ==> out@[x] < v@[y],
            forall|d: char| (out@.contains(d) || v@.contains(d)) <==> v0.contains(d),
        decreases v@.len(),
    {
        let mut mi: usize = 0;
        let mut k: usize = 1;
        while k < v.len()
            invariant
                mi < k <= v@.len(),
                forall|j: int| 0 <= j < k ==> v@[mi as int] <= v@[j],
            decreases v@.len() - k,
        {
            if v[k] < v[mi] {
                mi = k;
            }
            k = k + 1;
        }
        let ghost v_pre = v@;
        let m = v.remove(mi);
        proof {
            v_pre.remove_ensures(mi as int);
            assert forall|index: int| 0 <= index < mi implies v@[index] == v_pre[index] by {
                assert(v_pre.remove(mi as int)[index] == v_pre[index]);
            }
            assert forall|index: int| mi <= index < v_pre.len() - 1 implies v@[index] == v_pre[
                index + 1
            ] by {
                assert(v_pre.remove(mi as int)[index] == v_pre[index + 1]);
            }
            assert(v@.len() == v_pre.len() - 1);
            assert forall|x: int, y: int| 0 <= x < y < v@.len() implies v@[x] != v@[y] by {
                if y < mi {
                    assert(v@[x] == v_pre[x]);
                    assert(v@[y] == v_pre[y]);
                } else if x < mi {
                    assert(v@[x] == v_pre[x]);
                    assert(v@[y] == v_pre[y + 1]);
                } else {
                    assert(v@[x] == v_pre[x + 1]);
                    assert(v@[y] == v_pre[y + 1]);
                }
            }
            assert forall|d: char| (out@.push(m).contains(d) || v@.contains(d)) implies
                v0.contains(d) by {
                if !out@.contains(d) && d != m {
                    let j = choose|j: int| 0 <= j < v@.len() && v@[j] == d;
                    if j < mi {
                        assert(v@[j] == v_pre[j]);
                        assert(v_pre[j] == d);
                    } else {
                        assert(v@[j] == v_pre[j + 1]);
                        assert(v_pre[j + 1] == d);
                    }
                    assert(v_pre.contains(d));
                } else if d == m {
                    assert(v_pre[mi as int] == m);
                    assert(v_pre.contains(m));
                } else {
                    let j = choose|j: int| 0 <= j < out@.len() && out@[j] == d;
                    assert(out@.push(m)[j] == d);
                }
            }
            assert forall|d: char| v0.contains(d) implies (out@.push(m).contains(d)
                || v@.contains(d)) by {
                if !out@.contains(d) && d != m {
                    assert(v_pre.contains(d));
                    let j = choose|j: int| 0 <= j < v_pre.len() && v_pre[j] == d;
                    if j < mi {
                        assert(v@[j] == v_pre[j]);
                        assert(v@[j] == d);
                    } else {
                        assert(v_pre[mi as int] == m);
                        assert(j != mi);
                        assert(v@[j - 1] == v_pre[j]);
                        assert(v@[j - 1] == d);
                    }
                } else if d == m {
                    assert(out@.push(m)[out@.len() as int] == m);
                } else {
                    let j = choose|j: int| 0 <= j < out@.len() && out@[j] == d;
                    assert(out@.push(m)[j] == d);
                }
            }
            assert forall|x: int, y: int|
                0 <= x < out@.push(m).len() && 0 <= y < v@.len() implies out@.push(m)[x]
                < v@[y] by {
                let w = v@[y];
                if y < mi {
                    assert(v@[y] == v_pre[y]);
                    assert(v_pre[mi as int] <= v_pre[y]);
                    assert(v_pre[mi as int] != v_pre[y]);
                } else {
                    assert(v@[y] == v_pre[y + 1]);
                    assert(v_pre[mi as int] <= v_pre[y + 1]);
                    assert(v_pre[mi as int] != v_pre[y + 1]);
                }
            }
        }
        out.push(m);
    }
    *v = out;
}

/// The indices of the unflagged corpus words containing `c`, each
/// with its weight, in corpus order; the list is complete and its
/// weights stay within the corpus total.
fn candidates(words: &Vec<Word>, selected: &Vec<bool>, c: char) -> (r: Vec<(usize, u64)>)
    requires
        selected@.len() == words@.len(),
        sum_counts(words@) <= u64::MAX,
    ensures
        sum_weights(r@) <= sum_counts(words@),
        forall|k: int|
            0 <= k < r@.len() ==> (#[trigger] r@[k]).0 < words@.len() && !selected@[r@[k].0 as int]
                && words@[r@[k].0 as int].word@.contains(c) && r@[k].1 == words@[r@[
                k].0 as int].count,
        forall|i: int|
            0 <= i < words@.len() && !selected@[i] && words@[i].word@.contains(c)
                ==> exists|k: int| 0 <= k < r@.len() && (#[trigger] r@[k]).0 == i,
{
    let ghost ws = words@;
    let mut r: Vec<(usize, u64)> = Vec::new();
    let mut i: usize = 0;
    proof {
        lemma_cnts_from(ws, 0);
        assert(ws.skip(0) =~~= ws);
    }
    while i < words.len()
        invariant
            i <= ws.len(),
            words@ == ws,
            selected@.len() == ws.len(),
            sum_counts(ws) <= u64::MAX,
            sum_weights(r@) + cnts_from(ws, i as int) <= sum_counts(ws),
            forall|k: int|
                0 <= k < r@.len() ==> (#[trigger] r@[k]).0 < i && !selected@[r@[k].0 as int]
                    && ws[r@[k].0 as int].word@.contains(c) && r@[k].1 == ws[r@[
                    k].0 as int].count,
            forall|j: int|
                0 <= j < i && !selected@[j] && ws[j].word@.contains(c) ==> exists|k: int|
                    0 <= k < r@.len() && (#[trigger] r@[k]).0 == j,
        decreases ws.len() - i,
    {
        proof {
            lemma_cnts_from_nonneg(ws, i as int + 1);
        }
        if !selected[i] && word_contains(&words[i], c) {
            proof {
                lemma_sum_weights_push(r@, (i, ws[i as int].count));
            }
            let ghost r0 = r@;
            r.push((i, words[i].count));
            proof {
                assert(r@[r@.len() - 1].0 == i);
                assert forall|j: int|
                    0 <= j < i + 1 && !selected@[j] && ws[j].word@.contains(c) implies exists|
                    k: int,
                |
                    0 <= k < r@.len() && (#[trigger] r@[k]).0 == j by {
                    if j == i {
                        assert(r@[r@.len() - 1].0 == j);
                    } else {
                        let k = choose|k: int| 0 <= k < r0.len() && (#[trigger] r0[k]).0 == j;
                        assert(r@[k].0 == j);
                    }
                }
            }
        }
        i = i + 1;
    }
    r
}

/// A built training set: the selected words, their total character
/// count, and the target characters no corpus word could cover.
#[derive(Debug, Clone)]
pub struct WordSet {
    /// The selected words.
    pub words: Vec<Word>,
    /// The total number of characters over the selected words.
    pub chars: usize,
    /// The target characters left uncovered, sorted and without
    /// duplicates.
    pub missing: Vec<char>,
}

impl Default for WordSet {
    /// The empty set: no words, no characters, nothing missing.
    fn default() -> (r: WordSet)
        ensures
            r.words@.len() == 0,
            r.chars == 0,
            r.missing@.len() == 0,
    {
        WordSet { words: Vec::new(), chars: 0, missing: Vec::new() }
    }
}

impl WordSet {
    /// Shuffles the words into a uniformly random order; the set keeps
    /// exactly the same words, character count and missing list.
    pub fn shuffle(&mut self, rng: &mut rand::rngs::StdRng)
        ensures
            final(self).words@.to_multiset() == old(self).words@.to_multiset(),
            final(self).words@.len() == old(self).words@.len(),
            final(self).chars == old(self).chars,
            final(self).missing == old(self).missing,
    {
        proof {
            self.words@.to_multiset_ensures();
        }
        let ghost pre = self.words@;
        shuffle_vec(rng, &mut self.words);
        proof {
            pre.to_multiset_ensures();
            self.words@.to_multiset_ensures();
        }
    }

    /// Swaps the word at `index` with a word at a uniformly random
    /// strictly greater index and returns that index, so that callers
    /// can keep parallel per-word bookkeeping in step.  At the last
    /// valid index, or beyond the words, nothing moves and `index`
    /// itself comes back.
    pub fn swap_current(&mut self, index: usize, rng: &mut rand::rngs::StdRng) -> (r: usize)
        ensures
            index + 1 < old(self).words@.len() ==> index < r < old(self).words@.len(),
            index + 1 < old(self).words@.len() ==> final(self).words@ == old(
                self,
            ).words@.update(index as int, old(self).words@[r as int]).update(
                r as int,
                old(self).words@[index as int],
            ),
            index + 1 >= old(self).words@.len() ==> r == index,
            index + 1 >= old(self).words@.len() ==> final(self).words@ == old(self).words@,
            final(self).chars == old(self).chars,
            final(self).missing == old(self).missing,
    {
        let size = self.words.len();
        if size > 0 && index < size - 1 {
            let ghost w0 = self.words@;
            let next_index = rng_range(rng, index + 1, size);
            let mut tmp = self.words.remove(next_index);
            vstd::pervasive::VecAdditionalExecFns::set_and_swap(&mut self.words, index, &mut tmp);
            self.words.insert(next_index, tmp);
            proof {
                w0.remove_ensures(next_index as int);
                assert(self.words@ =~~= w0.update(
                    index as int,
                    w0[next_index as int],
                ).update(next_index as int, w0[index as int]));
            }
            next_index
        } else {
            index
        }
    }
}

/// Membership after a push: the pushed element and everything already
/// present.
proof fn lemma_push_contains(s: Seq<char>, x: char)
    ensures
        forall|d: char| #[trigger] s.push(x).contains(d) <==> (s.contains(d) || d == x),
{
    assert forall|d: char| #[trigger] s.push(x).contains(d) implies (s.contains(d) || d
        == x) by {
        let k = choose|k: int| 0 <= k < s.push(x).len() && s.push(x)[k] == d;
        if k < s.len() {
            assert(s[k] == d);
        }
    }
    assert forall|d: char| (s.contains(d) || d == x) implies #[trigger] s.push(x).contains(
        d,
    ) by {
        if d == x {
            assert(s.push(x)[s.len() as int] == d);
        } else {
            let k = choose|k: int| 0 <= k < s.len() && s[k] == d;
            assert(s.push(x)[k] == d);
        }
    }
}

/// Unflagged flags select no characters.
proof fn lemma_sel_chars_zero(ws: Seq<Word>, flags: Seq<bool>, i: int)
    requires
        0 <= i <= ws.len(),
        flags.len() == ws.len(),
        forall|j: int| 0 <= j < flags.len() ==> !flags[j],
    ensures
        sel_chars(ws, flags, i) == 0,
    decreases ws.len() - i,
{
    if i < ws.len() {
        lemma_sel_chars_zero(ws, flags, i + 1);
    }
}

/// Builds a training set for the characters of `charset` over the
/// given corpus: a frequency-weighted random selection of words that
/// covers every coverable required character, within the `hint_len`
/// character budget.  A budget of zero means unbounded: the builder
/// stops once the required characters are dealt with.  Characters no
/// corpus word can cover are reported in the missing list, never
/// raised as an error; under a positive budget the missing list also
/// takes the characters the budget cut off.
#[verifier::loop_isolation(false)]
pub fn build_set(
    corpus: &WordCorpus,
    charset: &str,
    hint_len: usize,
    rng: &mut rand::rngs::StdRng,
) -> (s: WordSet)
    requires
        corpus.wf(),
    ensures
        s.chars == sum_word_chars(s.words@),
        exists|idx: Seq<int>| #[trigger] selection_of(s.words@, corpus@, idx),
        forall|k: int| 0 <= k < s.words@.len() ==> corpus@.contains(#[trigger] s.words@[k]),
        forall|c: char|
            #[trigger] charset@.contains(c) ==> covers(s.words@, c) || s.missing@.contains(c),
        forall|c: char| #[trigger] s.missing@.contains(c) ==> charset@.contains(c),
        hint_len == 0 ==> (forall|c: char|
            #[trigger] s.missing@.contains(c) ==> !coverable(corpus@, c)),
        hint_len == 0 ==> (forall|c: char|
            charset@.contains(c) && !coverable(corpus@, c) ==> #[trigger] s.missing@.contains(
                c,
            )),
        forall|x: int, y: int| 0 <= x < y < s.missing@.len() ==> s.missing@[x] < s.missing@[y],
{
    let ghost ws = corpus@;
    let words_ref = corpus.words();
    let n = words_ref.len();
    let cs = chars_of(charset);

    let mut required: Vec<char> = Vec::new();
    let mut ci: usize = 0;
    while ci < cs.len()
        invariant
            ci <= cs@.len(),
            forall|x: int, y: int| 0 <= x < y < required@.len() ==> required@[x] != required@[y],
            forall|d: char| #[trigger] required@.contains(d) ==> cs@.contains(d),
            forall|j: int| 0 <= j < ci ==> required@.contains(#[trigger] cs@[j]),
        decreases cs@.len() - ci,
    {
        let c = cs[ci];
        if !contains_char(&required, c) {
            let ghost r0 = required@;
            required.push(c);
            proof {
                lemma_push_contains(r0, c);
                assert forall|j: int| 0 <= j < ci + 1 implies required@.contains(
                    #[trigger] cs@[j],
                ) by {
                    if j < ci {
                        assert(r0.contains(cs@[j]));
                    }
                }
                assert forall|x: int, y: int|
                    0 <= x < y < required@.len() implies required@[x] != required@[y] by {
                    if y < r0.len() {
                        assert(required@[x] == r0[x] && required@[y] == r0[y]);
                    } else {
                        assert(required@[y] == c);
                        assert(required@[x] == r0[x]);
                        assert(r0.contains(r0[x]));
                    }
                }
            }
        }
        ci = ci + 1;
    }

    let mut selected: Vec<bool> = Vec::new();
    let mut si: usize = 0;
    while si < n
        invariant
            si <= n,
            selected@.len() == si,
            forall|j: int| 0 <= j < si ==> !(#[trigger] selected@[j]),
        decreases n - si,
    {
        selected.push(false);
        si = si + 1;
    }
    let mut missing: Vec<char> = Vec::new();
    let mut chars: usize = 0;
    proof {
        lemma_sel_chars_zero(ws, selected@, 0);
    }

    while required.len() > 0 && (hint_len == 0 || chars < hint_len)
        invariant
            selected@.len() == n,
            chars == sel_chars(ws, selected@, 0),
            forall|x: int, y: int| 0 <= x < y < required@.len() ==> required@[x] != required@[y],
            forall|x: int, y: int| 0 <= x < y < missing@.len() ==> missing@[x] != missing@[y],
            forall|d: char| #[trigger] required@.contains(d) ==> cs@.contains(d),
            forall|d: char| #[trigger] missing@.contains(d) ==> cs@.contains(d),
            forall|d: char| #[trigger] missing@.contains(d) ==> !required@.contains(d),
            forall|d: char| #[trigger] missing@.contains(d) ==> !coverable(ws, d),
            forall|c: char|
                #[trigger] cs@.contains(c) ==> flags_cover(ws, selected@, c)
                    || required@.contains(c) || missing@.contains(c),
            forall|d: char| #[trigger] required@.contains(d) ==> !flags_cover(ws, selected@, d),
            forall|j: int| 0 <= j < n && #[trigger] selected@[j] ==> ws[j].count > 0,
        decreases required@.len(),
    {
        let ghost req0 = required@;
        let picked = choose_char(rng, &required);
        match picked {
            Some(elem) => {
                remove_char(&mut required, elem);
                let cands = candidates(words_ref, &selected, elem);
                let choice = choose_weighted(rng, &cands);
                match choice {
                    Some(pair) => {
                        let idx = pair.0;
                        let ghost f0 = selected@;
                        let ghost req1 = required@;
                        let wchars = chars_of(words_ref[idx].word.as_str());
                        let mut wi: usize = 0;
                        while wi < wchars.len()
                            invariant
                                wi <= wchars@.len(),
                                wchars@ == ws[idx as int].word@,
                                idx < n,
                                selected@ == f0,
                                required@.len() <= req1.len(),
                                forall|x: int, y: int|
                                    0 <= x < y < required@.len() ==> required@[x] != required@[y],
                                forall|d: char|
                                    #[trigger] required@.contains(d) ==> req1.contains(d),
                                forall|j: int|
                                    0 <= j < wi ==> !required@.contains(#[trigger] wchars@[j]),
                                forall|c: char|
                                    #[trigger] cs@.contains(c) ==> flags_cover(ws, selected@, c)
                                        || required@.contains(c) || missing@.contains(c) || ws[
                                        idx as int
                                    ].word@.contains(c),
                            decreases wchars@.len() - wi,
                        {
                            remove_char(&mut required, wchars[wi]);
                            wi = wi + 1;
                        }
                        proof {
                            lemma_flags_cover_mono(ws, selected@, idx as int);
                            lemma_sel_chars_update(ws, selected@, idx as int, 0);
                            lemma_sel_chars_le(ws, selected@.update(idx as int, true), 0);
                            assert(ws.skip(0) =~~= ws);
                        }
                        selected[idx] = true;
                        let wl = words_ref[idx].word.as_str().unicode_len();
                        chars = chars + wl;
                        proof {
                            assert forall|c: char|
                                #[trigger] cs@.contains(c) implies flags_cover(ws, selected@, c)
                                || required@.contains(c) || missing@.contains(c) by {
                                if !required@.contains(c) && !missing@.contains(c)
                                    && !flags_cover(ws, f0, c) {
                                    assert(ws[idx as int].word@.contains(c));
                                    assert(flags_cover(ws, selected@, c));
                                }
                            }
                            assert forall|d: char| #[trigger] required@.contains(d)
                                implies !flags_cover(ws, selected@, d) by {
                                if flags_cover(ws, selected@, d) {
                                    assert(req1.contains(d));
                                    assert(req0.contains(d));
                                    if flags_cover(ws, f0, d) {
                                    } else {
                                        assert(ws[idx as int].word@.contains(d));
                                        let j = choose|j: int|
                                            0 <= j < wchars@.len() && wchars@[j] == d;
                                        assert(!required@.contains(wchars@[j]));
                                    }
                                }
                            }
                        }
                    },
                    None => {
                        proof {
                            assert(!coverable(ws, elem)) by {
                                if coverable(ws, elem) {
                                    let i = choose|i: int|
                                        0 <= i < ws.len() && ws[i].word@.contains(elem)
                                            && ws[i].count > 0;
                                    if selected@[i] {
                                        assert(flags_cover(ws, selected@, elem));
                                        assert(req0.contains(elem));
                                    } else {
                                        let k = choose|k: int|
                                            0 <= k < cands@.len() && (#[trigger] cands@[k]).0
                                                == i;
                                        assert(cands@[k].1 > 0);
                                    }
                                }
                            }
                            assert(!missing@.contains(elem)) by {
                                assert(req0.contains(elem));
                            }
                        }
                        let ghost m0 = missing@;
                        missing.push(elem);
                        proof {
                            lemma_push_contains(m0, elem);
                            assert forall|x: int, y: int|
                                0 <= x < y < missing@.len() implies missing@[x] != missing@[
                                y
                            ] by {
                                if y < m0.len() {
                                    assert(missing@[x] == m0[x] && missing@[y] == m0[y]);
                                } else {
                                    assert(missing@[y] == elem);
                                    assert(missing@[x] == m0[x]);
                                    assert(m0.contains(m0[x]));
                                }
                            }
                            assert forall|c: char|
                                #[trigger] cs@.contains(c) implies flags_cover(ws, selected@, c)
                                || required@.contains(c) || missing@.contains(c) by {
                                if req0.contains(c) && !required@.contains(c) {
                                    assert(c == elem);
                                    assert(missing@.contains(elem));
                                }
                            }
                        }
                    },
                }
            },
            None => {
                proof {
                    assert(false);
                }
            },
        }
    }

    while required.len() > 0
        invariant
            selected@.len() == n,
            chars == sel_chars(ws, selected@, 0),
            forall|x: int, y: int| 0 <= x < y < required@.len() ==> required@[x] != required@[y],
            forall|x: int, y: int| 0 <= x < y < missing@.len() ==> missing@[x] != missing@[y],
            forall|d: char| #[trigger] required@.contains(d) ==> cs@.contains(d),
            forall|d: char| #[trigger] missing@.contains(d) ==> cs@.contains(d),
            forall|d: char| #[trigger] missing@.contains(d) ==> !required@.contains(d),
            hint_len == 0 ==> required@.len() == 0,
            hint_len == 0 ==> (forall|d: char|
                #[trigger] missing@.contains(d) ==> !coverable(ws, d)),
            forall|c: char|
                #[trigger] cs@.contains(c) ==> flags_cover(ws, selected@, c)
                    || required@.contains(c) || missing@.contains(c),
            forall|j: int| 0 <= j < n && #[trigger] selected@[j] ==> ws[j].count > 0,
        decreases required@.len(),
    {
        let ghost req0 = required@;
        let ghost m0 = missing@;
        let last = required.len() - 1;
        let c = required[last];
        let popped = required.pop();
        proof {
            assert(req0[last as int] == c);
            assert(req0.contains(c));
            assert(!m0.contains(c));
            assert forall|d: char| #[trigger] required@.contains(d) implies req0.contains(
                d,
            ) by {
                let k = choose|k: int| 0 <= k < required@.len() && required@[k] == d;
                assert(req0[k] == d);
            }
        }
        missing.push(c);
        proof {
            lemma_push_contains(m0, c);
            assert forall|x: int, y: int|
                0 <= x < y < missing@.len() implies missing@[x] != missing@[y] by {
                if y < m0.len() {
                    assert(missing@[x] == m0[x] && missing@[y] == m0[y]);
                } else {
                    assert(missing@[y] == c);
                    assert(missing@[x] == m0[x]);
                    assert(m0.contains(m0[x]));
                }
            }
            assert forall|d: char| #[trigger] missing@.contains(d)
                implies !required@.contains(d) by {
                if d == c {
                    if required@.contains(c) {
                        let j = choose|j: int| 0 <= j < required@.len() && required@[j] == c;
                        assert(req0[j] == c && req0[last as int] == c && j < last);
                    }
                }
            }
            assert forall|c2: char|
                #[trigger] cs@.contains(c2) implies flags_cover(ws, selected@, c2)
                || required@.contains(c2) || missing@.contains(c2) by {
                if req0.contains(c2) && !missing@.contains(c2) && !flags_cover(
                    ws,
                    selected@,
                    c2,
                ) {
                    let j = choose|j: int| 0 <= j < req0.len() && req0[j] == c2;
                    assert(c2 != c);
                    assert(j != last);
                    assert(required@[j] == c2);
                }
            }
        }
    }

    let mut letters = copy_chars(&cs);
    let mut changed = true;
    while chars < hint_len && changed
        invariant
            selected@.len() == n,
            chars == sel_chars(ws, selected@, 0),
            forall|c: char|
                #[trigger] cs@.contains(c) ==> flags_cover(ws, selected@, c)
                    || missing@.contains(c),
            forall|j: int| 0 <= j < n && #[trigger] selected@[j] ==> ws[j].count > 0,
        decreases (if chars >= hint_len {
            0int
        } else {
            hint_len - chars
        }), (if changed {
            1int
        } else {
            0int
        }),
    {
        changed = false;
        shuffle_vec(rng, &mut letters);
        let ghost chars0 = chars;
        let mut li: usize = 0;
        let mut stop = false;
        while li < letters.len() && !stop
            invariant
                selected@.len() == n,
                chars == sel_chars(ws, selected@, 0),
                chars0 <= chars,
                changed ==> chars0 < chars,
                forall|c: char|
                    #[trigger] cs@.contains(c) ==> flags_cover(ws, selected@, c)
                        || missing@.contains(c),
                forall|j: int| 0 <= j < n && #[trigger] selected@[j] ==> ws[j].count > 0,
            decreases letters@.len() - li,
        {
            let chr = letters[li];
            let cands = candidates(words_ref, &selected, chr);
            let choice = choose_weighted(rng, &cands);
            match choice {
                Some(pair) => {
                    let idx = pair.0;
                    let ghost f0 = selected@;
                    proof {
                        lemma_flags_cover_mono(ws, selected@, idx as int);
                        lemma_sel_chars_update(ws, selected@, idx as int, 0);
                        lemma_sel_chars_le(ws, selected@.update(idx as int, true), 0);
                        assert(ws.skip(0) =~~= ws);
                        assert(ws[idx as int].word@.len() > 0) by {
                            lemma_valid_word_len(ws[idx as int]);
                        }
                    }
                    selected[idx] = true;
                    let wl = words_ref[idx].word.as_str().unicode_len();
                    chars = chars + wl;
                    changed = true;
                    proof {
                        assert forall|c: char|
                            #[trigger] cs@.contains(c) implies flags_cover(ws, selected@, c)
                            || missing@.contains(c) by {
                            if flags_cover(ws, f0, c) {
                                assert(flags_cover(ws, selected@, c));
                            }
                        }
                    }
                    if chars >= hint_len {
                        stop = true;
                    }
                },
                None => {},
            }
            li = li + 1;
        }
    }

    sort_chars(&mut missing);

    let mut out_words: Vec<Word> = Vec::new();
    let mut oi: usize = 0;
    let ghost flags = selected@;
    let ghost mut idxs: Seq<int> = Seq::empty();
    while oi < n
        invariant
            oi <= n,
            selected@ == flags,
            flags.len() == n,
            sum_word_chars(out_words@) + sel_chars(ws, flags, oi as int) == sel_chars(
                ws,
                flags,
                0,
            ),
            idxs.len() == out_words@.len(),
            forall|k: int|
                0 <= k < idxs.len() ==> 0 <= #[trigger] idxs[k] < oi && flags[idxs[k]]
                    && out_words@[k] == ws[idxs[k]],
            forall|k: int| 0 < k < idxs.len() ==> idxs[k - 1] < #[trigger] idxs[k],
            forall|j: int| 0 <= j < oi && #[trigger] flags[j] ==> out_words@.contains(ws[j]),
        decreases n - oi,
    {
        let ghost o0 = out_words@;
        if selected[oi] {
            proof {
                lemma_sum_word_chars_push(out_words@, ws[oi as int]);
            }
            out_words.push(copy_word(&words_ref[oi]));
            proof {
                idxs = idxs.push(oi as int);
                assert(out_words@[out_words@.len() - 1] == ws[oi as int]);
                assert forall|j: int|
                    0 <= j < oi + 1 && #[trigger] flags[j] implies out_words@.contains(
                    ws[j],
                ) by {
                    if j < oi {
                        let k = choose|k: int| 0 <= k < o0.len() && o0[k] == ws[j];
                        assert(out_words@[k] == ws[j]);
                    } else {
                        assert(out_words@[out_words@.len() - 1] == ws[j]);
                    }
                }
            }
        }
        oi = oi + 1;
    }
    proof {
        assert forall|c: char| flags_cover(ws, flags, c) implies covers(out_words@, c) by {
            let j = choose|j: int|
                0 <= j < ws.len() && j < flags.len() && flags[j] && ws[j].word@.contains(c);
            assert(out_words@.contains(ws[j]));
            let k = choose|k: int| 0 <= k < out_words@.len() && out_words@[k] == ws[j];
            assert(out_words@[k].word@.contains(c));
        }
        assert(selection_of(out_words@, ws, idxs));
        assert forall|c: char| covers(out_words@, c) implies flags_cover(ws, flags, c) by {
            let k = choose|k: int| 0 <= k < out_words@.len() && out_words@[k].word@.contains(c);
            assert(flags[idxs[k]] && ws[idxs[k]].word@.contains(c));
        }
        assert forall|c: char|
            hint_len == 0 && charset@.contains(c) && !coverable(ws, c) implies missing@.contains(
            c,
        ) by {
            if flags_cover(ws, flags, c) {
                let j = choose|j: int|
                    0 <= j < ws.len() && j < flags.len() && flags[j] && ws[j].word@.contains(c);
                assert(ws[j].count > 0);
            }
        }
        assert forall|k: int|
            0 <= k < out_words@.len() implies corpus@.contains(#[trigger] out_words@[k]) by {
            assert(ws[idxs[k]] == out_words@[k]);
        }
    }
    WordSet { words: out_words, chars, missing }
}

} // verus!
