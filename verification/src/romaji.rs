//! Transliteration of kana text to a single romanized string, and
//! grading of a typed answer against a kana prompt.
//!
//! The romanization is the concatenation of the segmentation, so the
//! long-bar and gemination effects that span character boundaries are
//! already resolved entry by entry.  Grading lowercases the typed
//! text, substitutes the long bar for the ASCII dash, and aligns the
//! result against the canonical syllables with the diff engine, so a
//! learner may type either the bar or a dash.

use vstd::prelude::*;
use vstd::string::StrSliceExecFns;
use vstd::string::StringExecFns;

use crate::chars::chars_of;
use crate::chars::string_from_chars;
use crate::diff::d_cost;
use crate::diff::diff;
use crate::diff::lemma_diff_replay;
use crate::diff::lemma_diff_self;
use crate::diff::ops_sources;
use crate::diff::spec_diff;
use crate::diff::Diff;
use crate::diff::DiffV;
use crate::split::lemma_split_entries;
use crate::split::lemma_split_len;
use crate::split::lemma_split_total_len;
use crate::split::spec_split;
use crate::split::spec_to_romaji;
use crate::split::split_romaji;

verus! {

/// Transliterates kana text into one romanized string: the
/// concatenation of its segmentation.
pub fn to_romaji(input: &str) -> (r: String)
    ensures
        r@ == spec_to_romaji(input@),
{
    broadcast use vstd::seq::Seq::lemma_flatten_push;

    let syllables = split_romaji(input);
    let ghost sv = spec_split(input@);
    let mut out: Vec<char> = Vec::new();
    let mut i: usize = 0;
    proof {
        assert(sv.take(0) =~~= Seq::<Seq<char>>::empty());
        assert(sv.take(0).flatten() =~= Seq::<char>::empty());
    }
    while i < syllables.len()
        invariant
            i <= syllables@.len(),
            syllables.deep_view() == sv,
            out@ == sv.take(i as int).flatten(),
        decreases syllables@.len() - i,
    {
        let mut piece = chars_of(syllables[i].as_str());
        out.append(&mut piece);
        proof {
            assert(sv.take(i as int + 1) =~= sv.take(i as int).push(sv[i as int]));
            sv.take(i as int).lemma_flatten_push(sv[i as int]);
        }
        i = i + 1;
    }
    proof {
        assert(sv.take(sv.len() as int) =~= sv);
    }
    string_from_chars(&out)
}

/// Transliteration is pure: the romanization depends on the input
/// text alone, so equal texts always romanize equally, whatever was
/// transliterated before.
pub proof fn lemma_to_romaji_deterministic(s: Seq<char>, t: Seq<char>)
    requires
        s == t,
    ensures
        spec_to_romaji(s) == spec_to_romaji(t),
{
}

/// What `str::to_lowercase` returns for the given characters; relied
/// on as a function of the characters alone.
pub uninterp spec fn lower_of(s: Seq<char>) -> Seq<char>;

/// Relies on `str::to_lowercase`: the result depends on the input
/// characters alone.
#[verifier::external_body]
fn lowercase(s: &str) -> (r: String)
    ensures
        r@ == lower_of(s@),
{
    s.to_lowercase()
}

/// The long-bar substitution applied to a typed answer: every ASCII
/// dash stands for the katakana long bar.
pub open spec fn dash_to_bar(s: Seq<char>) -> Seq<char> {
    s.map_values(
        |c: char|
            if c == '-' {
                'ー'
            } else {
                c
            },
    )
}

/// The input handed to the diff engine: the typed answer lowercased,
/// with the long bar standing in for every dash.
pub open spec fn normalized_input(romaji: Seq<char>) -> Seq<char> {
    dash_to_bar(lower_of(romaji))
}

/// Whether a script consists of `Same` entries only.
pub open spec fn all_same(ops: Seq<DiffV>) -> bool {
    forall|i: int| 0 <= i < ops.len() ==> ops[i] is Same
}

/// The kana characters the learner got wrong: the walk advances one
/// kana character per `Same`, `Insert` or `Change` entry, collects it
/// on `Insert` and `Change`, and skips `Delete` entries, which have no
/// kana correspondence.
pub open spec fn spec_fails(ops: Seq<DiffV>, split: Seq<char>, idx: int) -> Seq<char>
    decreases ops.len(),
{
    if ops.len() == 0 {
        Seq::empty()
    } else {
        match ops[0] {
            DiffV::Same(_) => spec_fails(ops.drop_first(), split, idx + 1),
            DiffV::Delete(_) => spec_fails(ops.drop_first(), split, idx),
            DiffV::Insert(_) => seq![split[idx]] + spec_fails(ops.drop_first(), split, idx + 1),
            DiffV::Change(_, _) => seq![split[idx]] + spec_fails(
                ops.drop_first(),
                split,
                idx + 1,
            ),
        }
    }
}

/// Diffing the segmentation of any text against its own romanization
/// yields one `Same` entry per segmentation entry and nothing else,
/// at total cost zero.
pub proof fn lemma_self_diff(text: Seq<char>)
    ensures
        spec_diff(spec_split(text), spec_to_romaji(text)) == spec_split(text).map_values(
            |s: Seq<char>| DiffV::Same(s),
        ),
        all_same(spec_diff(spec_split(text), spec_to_romaji(text))),
        d_cost(spec_split(text), spec_to_romaji(text), 0, 0) == 0,
{
    lemma_split_entries(text);
    lemma_split_len(text);
    lemma_diff_self(spec_split(text));
}

/// Result of matching a kana prompt against a typed romaji answer.
#[derive(Debug, Clone)]
pub struct Match {
    /// True if the typed answer matches the romanization exactly.
    pub is_match: bool,
    /// The kana input string.
    pub kana: String,
    /// The typed answer, lowercased and with dashes turned into long
    /// bars.
    pub romaji: String,
    /// The actual romanization of the kana.
    pub actual: String,
    /// The characters of the kana string.
    pub split: Vec<char>,
    /// The diff from the normalized answer to the kana's syllables.
    pub diff: Vec<Diff>,
    /// The kana characters whose syllables the answer got wrong.
    pub fails: Vec<char>,
}

impl Match {
    /// Grades the typed `romaji` answer against the `kana` prompt:
    /// the answer is lowercased, dashes become long bars, and the
    /// result is aligned against the kana's syllables.
    ///
    /// The size bounds are machine limits only, far beyond any text a
    /// person can type; [`Match::checked`] tests them at run time.
    pub fn new(kana: &str, romaji: &str) -> (m: Match)
        requires
            kana@.len() <= 0x1000_0000,
            lower_of(romaji@).len() <= 0x1000_0000,
        ensures
            m.kana@ == kana@,
            m.split@ == kana@,
            m.romaji@ == normalized_input(romaji@),
            m.actual@ == spec_to_romaji(kana@),
            m.diff.deep_view() == spec_diff(spec_split(kana@), normalized_input(romaji@)),
            m.is_match == all_same(spec_diff(spec_split(kana@), normalized_input(romaji@))),
            m.fails@ == spec_fails(
                spec_diff(spec_split(kana@), normalized_input(romaji@)),
                kana@,
                0,
            ),
    {
        let syllables = split_romaji(kana);
        let low = lowercase(romaji);
        let lowv = chars_of(low.as_str());
        let mut normv: Vec<char> = Vec::new();
        let mut i: usize = 0;
        while i < lowv.len()
            invariant
                i <= lowv@.len(),
                normv@.len() == i,
                forall|j: int|
                    0 <= j < i ==> normv@[j] == (if lowv@[j] == '-' {
                        'ー'
                    } else {
                        lowv@[j]
                    }),
            decreases lowv@.len() - i,
        {
            let c = lowv[i];
            if c == '-' {
                normv.push('ー');
            } else {
                normv.push(c);
            }
            i = i + 1;
        }
        proof {
            assert(normv@ =~= dash_to_bar(lower_of(romaji@)));
        }
        let norm = string_from_chars(&normv);
        proof {
            lemma_split_total_len(kana@);
            lemma_split_len(kana@);
        }
        let d = diff(&syllables, norm.as_str());
        let ghost dv = spec_diff(spec_split(kana@), normalized_input(romaji@));
        let actual = to_romaji(kana);
        let split = chars_of(kana);
        let mut is_match = true;
        let mut i2: usize = 0;
        while i2 < d.len()
            invariant
                i2 <= d@.len(),
                d.deep_view() == dv,
                is_match == (forall|j: int| 0 <= j < i2 ==> dv[j] is Same),
            decreases d@.len() - i2,
        {
            let ok = match &d[i2] {
                Diff::Same(_) => true,
                _ => false,
            };
            proof {
                assert(dv[i2 as int] == d@[i2 as int]@);
            }
            is_match = is_match && ok;
            i2 = i2 + 1;
        }
        let mut fails: Vec<char> = Vec::new();
        let mut ki: usize = 0;
        let mut i3: usize = 0;
        proof {
            lemma_diff_replay(spec_split(kana@), normalized_input(romaji@));
            assert(dv.skip(0) =~~= dv);
            assert(spec_fails(dv, kana@, 0) =~= fails@ + spec_fails(dv.skip(0), kana@, 0));
        }
        while i3 < d.len()
            invariant
                i3 <= d@.len(),
                d.deep_view() == dv,
                split@ == kana@,
                kana@.len() <= 0x1000_0000,
                ki + ops_sources(dv.skip(i3 as int)).len() == kana@.len(),
                spec_fails(dv, kana@, 0) == fails@ + spec_fails(dv.skip(i3 as int), kana@, ki as int),
            decreases d@.len() - i3,
        {
            let ghost fails0 = fails@;
            let ghost ki0 = ki as int;
            proof {
                assert(dv[i3 as int] == d@[i3 as int]@);
                assert(dv.skip(i3 as int)[0] == dv[i3 as int]);
                assert(dv.skip(i3 as int).drop_first() =~~= dv.skip(i3 as int + 1));
            }
            match &d[i3] {
                Diff::Same(_) => {
                    ki = ki + 1;
                },
                Diff::Delete(_) => {},
                Diff::Insert(_) => {
                    fails.push(split[ki]);
                    ki = ki + 1;
                },
                Diff::Change(_, _) => {
                    fails.push(split[ki]);
                    ki = ki + 1;
                },
            }
            proof {
                assert(spec_fails(dv, kana@, 0) =~= fails@ + spec_fails(
                    dv.skip(i3 as int + 1),
                    kana@,
                    ki as int,
                ));
            }
            i3 = i3 + 1;
        }
        proof {
            assert(dv.skip(d@.len() as int) =~~= Seq::<DiffV>::empty());
            assert(fails@ =~= spec_fails(dv, kana@, 0));
        }
        Match {
            is_match,
            kana: String::from_str(kana),
            romaji: norm,
            actual,
            split,
            diff: d,
            fails,
        }
    }

    /// Grades like [`Match::new`], testing the machine size bounds at
    /// run time: `None` exactly when a text is too large for the cost
    /// arithmetic, which no real input reaches.
    pub fn checked(kana: &str, romaji: &str) -> (r: Option<Match>)
        ensures
            match r {
                Some(m) => kana@.len() <= 0x1000_0000 && lower_of(romaji@).len() <= 0x1000_0000
                    && m.kana@ == kana@ && m.split@ == kana@ && m.romaji@ == normalized_input(
                    romaji@,
                ) && m.actual@ == spec_to_romaji(kana@) && m.diff.deep_view() == spec_diff(
                    spec_split(kana@),
                    normalized_input(romaji@),
                ) && m.is_match == all_same(
                    spec_diff(spec_split(kana@), normalized_input(romaji@)),
                ) && m.fails@ == spec_fails(
                    spec_diff(spec_split(kana@), normalized_input(romaji@)),
                    kana@,
                    0,
                ),
                None => kana@.len() > 0x1000_0000 || lower_of(romaji@).len() > 0x1000_0000,
            },
    {
        if kana.unicode_len() > 0x1000_0000 {
            return None;
        }
        let low = lowercase(romaji);
        if low.as_str().unicode_len() > 0x1000_0000 {
            return None;
        }
        Some(Match::new(kana, romaji))
    }
}

} // verus!
