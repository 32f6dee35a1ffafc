//! Segmentation of kana text into romaji syllables.
//!
//! The segmenter emits exactly one entry per input character: plain
//! syllables become their romaji, gemination markers duplicate the
//! following consonant, the long bar duplicates the preceding letter,
//! and the small digraph characters rewrite the preceding entry into a
//! consonant prefix followed by a glide or vowel suffix.

use vstd::prelude::*;

use crate::chars::chars_eq;
use crate::chars::chars_of;
use crate::chars::string_from_chars;
use crate::diff::sum_lens;
use crate::tables::lemma_kana_lens;
use crate::tables::lemma_prefix_lens;
use crate::tables::lemma_suffix_lens;
use crate::tables::spec_kana;
use crate::tables::Kana;

verus! {

/// Placeholder entry emitted for a gemination marker that is never
/// resolved by a following syllable.
pub open spec fn tsu_repr() -> Seq<char> {
    "~tsu"@
}

/// Sentinel recorded when the preceding character cannot open a
/// digraph; two characters long so that dropping its final character
/// still leaves a non-empty prefix.
pub open spec fn invalid_prefix() -> Seq<char> {
    "~~"@
}

/// The consonant used to duplicate a syllable after a gemination
/// marker: `chi` exceptionally doubles as `t`, every other syllable
/// doubles with its first letter.  (An empty syllable never comes out
/// of the character table; it falls back to the placeholder mark.)
pub open spec fn dup_char(value: Seq<char>) -> char {
    if value == "chi"@ {
        't'
    } else if value.len() > 0 {
        value[0]
    } else {
        '~'
    }
}

/// The running state of the segmenter.
pub struct SegState {
    /// Entries emitted so far.
    pub out: Seq<Seq<char>>,
    /// How many gemination duplicates stand immediately before the
    /// last emitted entry; they may still be rewritten by a digraph.
    pub dups: nat,
    /// Gemination markers seen but not yet resolved.
    pub pending: nat,
    /// The syllable the previous entry would contribute to a digraph.
    pub last_prefix: Seq<char>,
}

/// The entries appended when a value is emitted: one single-letter
/// duplicate per pending gemination marker, then the value itself.
pub open spec fn push_out(out: Seq<Seq<char>>, pending: nat, value: Seq<char>) -> Seq<Seq<char>> {
    out + Seq::new(pending, |i: int| seq![dup_char(value)]) + seq![value]
}

/// Emits `value`, resolving pending gemination markers.
pub open spec fn spec_push(st: SegState, value: Seq<char>) -> SegState {
    SegState {
        out: push_out(st.out, st.pending, value),
        dups: st.pending,
        pending: 0,
        last_prefix: st.last_prefix,
    }
}

/// Whether a digraph prefix swallows the leading `y` of a suffix:
/// after `ch`, `sh`, `j` or `y` the glide letter is already implied.
pub open spec fn glide_elides(prefix: Seq<char>) -> bool {
    ||| (prefix.len() >= 2 && prefix[prefix.len() - 2] == 'c' && prefix.last() == 'h')
    ||| (prefix.len() >= 2 && prefix[prefix.len() - 2] == 's' && prefix.last() == 'h')
    ||| (prefix.len() >= 1 && prefix.last() == 'j')
    ||| (prefix.len() >= 1 && prefix.last() == 'y')
}

/// Replaces the gemination duplicates standing just before the last
/// entry with the first letter of the new digraph prefix.  A prefix
/// with no letters leaves the duplicates as they are.
pub open spec fn rewrite_dups(out: Seq<Seq<char>>, dups: nat, prefix: Seq<char>) -> Seq<
    Seq<char>,
> {
    if prefix.len() == 0 {
        out
    } else {
        Seq::new(
            out.len(),
            |i: int|
                if out.len() - 1 - dups <= i < out.len() - 1 {
                    seq![prefix[0]]
                } else {
                    out[i]
                },
        )
    }
}

/// One step of the segmenter: the effect of a single character on the
/// running state.
pub open spec fn seg_step(st: SegState, c: char) -> SegState {
    match spec_kana(c) {
        Some(Kana::Chr(_, romaji)) => SegState {
            last_prefix: romaji@,
            ..spec_push(st, romaji@)
        },
        Some(Kana::Dig(_, romaji, pre)) => SegState {
            last_prefix: pre.spec_str(),
            ..spec_push(st, romaji@)
        },
        Some(Kana::SmallTsu(_)) => SegState {
            pending: st.pending + 1,
            last_prefix: invalid_prefix(),
            ..st
        },
        Some(Kana::Bar(chr)) => {
            let value = if st.out.len() > 0 {
                if st.out.last().len() > 0 {
                    seq![st.out.last().last()]
                } else {
                    seq![chr]
                }
            } else {
                seq![chr]
            };
            spec_push(st, value)
        },
        Some(Kana::Small(_, suf)) => {
            if st.out.len() == 0 {
                spec_push(st, suf.spec_str())
            } else {
                let suffix0 = suf.spec_str();
                let prefix = if st.last_prefix.len() > 0 {
                    st.last_prefix.drop_last()
                } else {
                    Seq::<char>::empty()
                };
                let suffix = if suffix0.len() > 0 && suffix0[0] == 'y' && glide_elides(prefix) {
                    suffix0.drop_first()
                } else {
                    suffix0
                };
                let out1 = st.out.update(st.out.len() - 1, prefix);
                let out2 = rewrite_dups(out1, st.dups, prefix);
                SegState {
                    out: out2 + seq![suffix],
                    dups: 0,
                    pending: st.pending,
                    last_prefix: invalid_prefix(),
                }
            }
        },
        None => spec_push(st, seq![c]),
    }
}

/// The segmenter state at the start of the text.
pub open spec fn seg_init() -> SegState {
    SegState { out: Seq::empty(), dups: 0, pending: 0, last_prefix: invalid_prefix() }
}

/// The segmenter state after consuming the whole text.
pub open spec fn seg_run(text: Seq<char>) -> SegState
    decreases text.len(),
{
    if text.len() == 0 {
        seg_init()
    } else {
        seg_step(seg_run(text.drop_last()), text.last())
    }
}

/// The segmentation of a text: the emitted entries, with one
/// placeholder entry per gemination marker left unresolved at the end.
pub open spec fn spec_split(text: Seq<char>) -> Seq<Seq<char>> {
    let st = seg_run(text);
    st.out + Seq::new(st.pending, |i: int| tsu_repr())
}

/// The romanization of a text: the concatenation of its segmentation.
pub open spec fn spec_to_romaji(text: Seq<char>) -> Seq<char> {
    spec_split(text).flatten()
}

/// The views of the entries of a vector of character vectors.
pub open spec fn entries_view(v: Seq<Vec<char>>) -> Seq<Seq<char>> {
    v.map_values(|e: Vec<char>| e@)
}

/// Emits `value` into `out`, first emitting one single-letter duplicate
/// entry per pending gemination marker.
fn push_entry(out: &mut Vec<Vec<char>>, pending: usize, value: Vec<char>)
    requires
        old(out)@.len() + pending + 1 <= usize::MAX,
    ensures
        entries_view(final(out)@) == push_out(entries_view(old(out)@), pending as nat, value@),
{
    let ghost out0 = out@;
    let ghost valv = value@;
    if pending > 0 {
        let chi = chars_of("chi");
        let d: char = if chars_eq(&value, &chi) {
            't'
        } else if value.len() > 0 {
            value[0]
        } else {
            '~'
        };
        assert(d == dup_char(valv));
        let mut k: usize = 0;
        while k < pending
            invariant
                k <= pending,
                out@.len() == out0.len() + k,
                out@.take(out0.len() as int) == out0,
                forall|j: int| out0.len() <= j < out@.len() ==> out@[j]@ == seq![dup_char(valv)],
                d == dup_char(valv),
                out0.len() + pending + 1 <= usize::MAX,
            decreases pending - k,
        {
            let mut e: Vec<char> = Vec::new();
            e.push(d);
            assert(e@ =~= seq![dup_char(valv)]);
            out.push(e);
            k = k + 1;
            proof {
                assert(out@.take(out0.len() as int) =~= out0);
            }
        }
    }
    out.push(value);
    proof {
        assert(final(out)@.take(out0.len() as int) =~= out0);
        assert(entries_view(final(out)@) =~~= push_out(entries_view(out0), pending as nat, valv));
    }
}

/// Copies a character vector.
pub(crate) fn copy_chars(v: &Vec<char>) -> (r: Vec<char>)
    ensures
        r@ == v@,
{
    let mut r: Vec<char> = Vec::new();
    let mut i: usize = 0;
    while i < v.len()
        invariant
            i <= v@.len(),
            r@ == v@.take(i as int),
        decreases v@.len() - i,
    {
        r.push(v[i]);
        proof {
            assert(v@.take(i as int + 1) =~= v@.take(i as int).push(v@[i as int]));
        }
        i = i + 1;
    }
    proof {
        assert(v@.take(v@.len() as int) =~= v@);
    }
    r
}

/// Whether the prefix swallows a leading `y`; mirrors [`glide_elides`].
fn glide_elides_exec(prefix: &Vec<char>) -> (r: bool)
    ensures
        r == glide_elides(prefix@),
{
    let n = prefix.len();
    if n >= 2 && prefix[n - 2] == 'c' && prefix[n - 1] == 'h' {
        return true;
    }
    if n >= 2 && prefix[n - 2] == 's' && prefix[n - 1] == 'h' {
        return true;
    }
    if n >= 1 && (prefix[n - 1] == 'j' || prefix[n - 1] == 'y') {
        return true;
    }
    false
}

/// Splits kana text into romaji, returning exactly one entry per
/// character of the text: digraphs and gemination markers split what
/// would be one syllable over several entries.
pub fn split_romaji(text: &str) -> (r: Vec<String>)
    ensures
        r.deep_view() == spec_split(text@),
        r.deep_view().len() == text@.len(),
{
    let cs = chars_of(text);
    let mut out: Vec<Vec<char>> = Vec::new();
    let mut dups: usize = 0;
    let mut pending: usize = 0;
    let mut lastp: Vec<char> = chars_of("~~");
    let n = cs.len();
    let mut i: usize = 0;
    proof {
        assert(text@.take(0) =~= Seq::<char>::empty());
        assert(entries_view(out@) =~~= Seq::<Seq<char>>::empty());
    }
    while i < n
        invariant
            i <= n,
            n == cs@.len(),
            cs@ == text@,
            entries_view(out@) == seg_run(text@.take(i as int)).out,
            dups as nat == seg_run(text@.take(i as int)).dups,
            pending as nat == seg_run(text@.take(i as int)).pending,
            lastp@ == seg_run(text@.take(i as int)).last_prefix,
            out@.len() + pending == i,
            dups == 0 || dups < out@.len(),
        decreases n - i,
    {
        let ghost st_pre = seg_run(text@.take(i as int));
        let c = cs[i];
        proof {
            assert(text@.take(i as int + 1).drop_last() =~= text@.take(i as int));
            assert(text@.take(i as int + 1).last() == text@[i as int]);
        }
        match Kana::get(c) {
            Some(Kana::Chr(_, romaji)) => {
                let v = chars_of(romaji);
                push_entry(&mut out, pending, v);
                dups = pending;
                pending = 0;
                lastp = chars_of(romaji);
            },
            Some(Kana::Dig(_, romaji, pre)) => {
                let v = chars_of(romaji);
                push_entry(&mut out, pending, v);
                dups = pending;
                pending = 0;
                lastp = chars_of(pre.as_str());
            },
            Some(Kana::SmallTsu(_)) => {
                pending = pending + 1;
                lastp = chars_of("~~");
            },
            Some(Kana::Bar(chr)) => {
                let vc: char = if out.len() > 0 {
                    let last = &out[out.len() - 1];
                    if last.len() > 0 {
                        last[last.len() - 1]
                    } else {
                        chr
                    }
                } else {
                    chr
                };
                let mut value: Vec<char> = Vec::new();
                value.push(vc);
                proof {
                    assert(value@ =~= seq![vc]);
                    assert(entries_view(out@).len() > 0 ==> entries_view(out@).last() == out@[
                        out@.len() - 1
                    ]@);
                }
                push_entry(&mut out, pending, value);
                dups = pending;
                pending = 0;
            },
            Some(Kana::Small(_, suf)) => {
                if out.len() == 0 {
                    let v = chars_of(suf.as_str());
                    push_entry(&mut out, pending, v);
                    dups = pending;
                    pending = 0;
                } else {
                    let suffix0 = chars_of(suf.as_str());
                    let mut prefix = copy_chars(&lastp);
                    if prefix.len() > 0 {
                        prefix.pop();
                    }
                    proof {
                        if lastp@.len() > 0 {
                            assert(prefix@ =~= lastp@.drop_last());
                        } else {
                            assert(prefix@ =~= Seq::<char>::empty());
                        }
                    }
                    let mut suffix = suffix0;
                    if suffix.len() > 0 && suffix[0] == 'y' && glide_elides_exec(&prefix) {
                        suffix.remove(0);
                        proof {
                            assert(suffix@ =~= suf.spec_str().drop_first());
                        }
                    }
                    let last_idx = out.len() - 1;
                    let ghost prefixv = prefix@;
                    let pc_some = prefix.len() > 0;
                    let pc: char = if pc_some {
                        prefix[0]
                    } else {
                        '~'
                    };
                    out[last_idx] = prefix;
                    let ghost out1v = out@;
                    let ghost out1 = entries_view(out@);
                    proof {
                        assert(out1 =~~= st_pre.out.update(st_pre.out.len() - 1, prefixv));
                    }
                    if pc_some {
                        let mut k: usize = 0;
                        while k < dups
                            invariant
                                k <= dups,
                                dups < out@.len(),
                                last_idx == out@.len() - 1,
                                pc == prefixv[0],
                                prefixv.len() > 0,
                                out1v.len() == out@.len(),
                                forall|j: int|
                                    0 <= j < out@.len() ==> out@[j]@ == (
                                    if last_idx - k <= j < last_idx {
                                        seq![pc]
                                    } else {
                                        out1v[j]@
                                    }),
                            decreases dups - k,
                        {
                            let mut e: Vec<char> = Vec::new();
                            e.push(pc);
                            assert(e@ =~= seq![pc]);
                            out[last_idx - 1 - k] = e;
                            k = k + 1;
                        }
                        proof {
                            assert(entries_view(out@) =~~= rewrite_dups(out1, dups as nat, prefixv));
                        }
                    } else {
                        proof {
                            assert(entries_view(out@) =~~= rewrite_dups(out1, dups as nat, prefixv));
                        }
                    }
                    out.push(suffix);
                    dups = 0;
                    lastp = chars_of("~~");
                    proof {
                        assert(entries_view(out@) =~~= seg_step(st_pre, text@[i as int]).out);
                    }
                }
            },
            None => {
                let mut value: Vec<char> = Vec::new();
                value.push(c);
                proof {
                    assert(value@ =~= seq![c]);
                }
                push_entry(&mut out, pending, value);
                dups = pending;
                pending = 0;
            },
        }
        proof {
            let st_post = seg_step(st_pre, text@[i as int]);
            assert(seg_run(text@.take(i as int + 1)) == st_post);
            assert(entries_view(out@) == st_post.out);
            assert(dups as nat == st_post.dups);
            assert(pending as nat == st_post.pending);
            assert(lastp@ == st_post.last_prefix);
        }
        i = i + 1;
    }
    proof {
        assert(text@.take(n as int) =~= text@);
    }
    let ghost st_end = seg_run(text@);
    let ghost tail_total = pending as nat;
    let ghost out_end = out@;
    while pending > 0
        invariant
            pending <= tail_total,
            st_end.pending == tail_total,
            entries_view(out_end) == st_end.out,
            out@.len() == out_end.len() + (tail_total - pending),
            out@.take(out_end.len() as int) == out_end,
            forall|j: int| out_end.len() <= j < out@.len() ==> out@[j]@ == tsu_repr(),
            out@.len() + pending <= usize::MAX,
        decreases pending,
    {
        let t = chars_of("~tsu");
        out.push(t);
        pending = pending - 1;
        proof {
            assert(out@.take(out_end.len() as int) =~= out_end);
        }
    }
    proof {
        assert(entries_view(out@) =~~= spec_split(text@));
    }
    let mut r: Vec<String> = Vec::new();
    let mut i2: usize = 0;
    while i2 < out.len()
        invariant
            i2 <= out@.len(),
            r@.len() == i2,
            forall|j: int| 0 <= j < i2 ==> r@[j]@ == out@[j]@,
        decreases out@.len() - i2,
    {
        let s = string_from_chars(&out[i2]);
        r.push(s);
        i2 = i2 + 1;
    }
    proof {
        assert(r.deep_view() =~~= entries_view(out@));
        lemma_split_len(text@);
    }
    r
}

/// The segmenter emits exactly one entry per character: every push
/// resolves the markers counted so far, and leftover markers each
/// become one placeholder entry.
pub proof fn lemma_split_len(text: Seq<char>)
    ensures
        spec_split(text).len() == text.len(),
    decreases text.len(),
{
    lemma_seg_run_len(text);
}

/// Invariant behind [`lemma_split_len`]: entries emitted plus markers
/// pending always equals the number of characters consumed.
proof fn lemma_seg_run_len(text: Seq<char>)
    ensures
        seg_run(text).out.len() + seg_run(text).pending == text.len(),
    decreases text.len(),
{
    if text.len() > 0 {
        lemma_seg_run_len(text.drop_last());
    }
}

/// Well-formedness of the running state: every emitted entry has at
/// most four characters, the recorded prefix one to three, and the
/// last emitted entry is never empty.
proof fn lemma_seg_run_wf(text: Seq<char>)
    ensures
        forall|i: int|
            0 <= i < seg_run(text).out.len() ==> #[trigger] seg_run(text).out[i].len() <= 4,
        1 <= seg_run(text).last_prefix.len() <= 3,
        seg_run(text).out.len() > 0 ==> seg_run(text).out.last().len() > 0,
    decreases text.len(),
{
    reveal_strlit("~~");
    if text.len() > 0 {
        lemma_seg_run_wf(text.drop_last());
        let st = seg_run(text.drop_last());
        let c = text.last();
        lemma_kana_lens(c);
        match spec_kana(c) {
            Some(Kana::Dig(_, _, pre)) => {
                lemma_prefix_lens(pre);
            },
            Some(Kana::Small(_, suf)) => {
                lemma_suffix_lens(suf);
            },
            _ => {},
        }
    }
}

/// Every entry of a segmentation has at most four characters, and a
/// segmentation of a non-empty text never ends with an empty entry.
pub proof fn lemma_split_entries(text: Seq<char>)
    ensures
        forall|i: int|
            0 <= i < spec_split(text).len() ==> #[trigger] spec_split(text)[i].len() <= 4,
        text.len() > 0 ==> spec_split(text).last().len() > 0,
{
    reveal_strlit("~tsu");
    lemma_seg_run_wf(text);
    lemma_seg_run_len(text);
}

/// A sequence of entries of at most four characters each has at most
/// four characters per entry in total.
proof fn lemma_sum_lens_le4(s: Seq<Seq<char>>)
    requires
        forall|i: int| 0 <= i < s.len() ==> #[trigger] s[i].len() <= 4,
    ensures
        sum_lens(s) <= 4 * s.len(),
    decreases s.len(),
{
    if s.len() > 0 {
        lemma_sum_lens_le4(s.drop_first());
    }
}

/// A segmentation holds at most four characters per input character.
pub proof fn lemma_split_total_len(text: Seq<char>)
    ensures
        sum_lens(spec_split(text)) <= 4 * text.len(),
{
    lemma_split_entries(text);
    lemma_split_len(text);
    lemma_sum_lens_le4(spec_split(text));
}

} // verus!

