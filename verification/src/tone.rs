//! Tone placement: which vowel of a word carries the tone mark, and the
//! marked letter itself.
use vstd::prelude::*;
use crate::config::TonePlacement;
use crate::syllable::{is_modified_vowel, is_modified_vowel_spec, is_vowel};
use crate::text::{
    char_is_uppercase, chars_of, chars_to_lowercase, is_uppercase, lower1, lower_first, opt_view,
    str_lowercase, string_of, upper1, upper_first,
};
use crate::unicode_map::{has_tone_row, is_vowel_char, tone_lookup, tone_variant};

verus! {

/// Tone mark identifiers.
#[derive(Debug, Clone, Copy, PartialEq, Eq, Structural)]
pub enum ToneMark {
    NoTone,
    /// sắc (acute)
    Sac,
    /// huyền (grave)
    Huyen,
    /// hỏi (hook above)
    Hoi,
    /// ngã (tilde)
    Nga,
    /// nặng (dot below)
    Nang,
}

/// The index (0..=5) of a tone mark.
pub open spec fn tone_index(t: ToneMark) -> u8 {
    match t {
        ToneMark::NoTone => 0,
        ToneMark::Sac => 1,
        ToneMark::Huyen => 2,
        ToneMark::Hoi => 3,
        ToneMark::Nga => 4,
        ToneMark::Nang => 5,
    }
}

impl ToneMark {
    /// Convert from an index (1..=5) to a tone mark; any other index is `None`.
    pub fn from_index(idx: u8) -> (r: Self)
        ensures
            1 <= idx <= 5 ==> tone_index(r) == idx,
            !(1 <= idx <= 5) ==> r == ToneMark::NoTone,
    {
        match idx {
            1 => ToneMark::Sac,
            2 => ToneMark::Huyen,
            3 => ToneMark::Hoi,
            4 => ToneMark::Nga,
            5 => ToneMark::Nang,
            _ => ToneMark::NoTone,
        }
    }

    /// Convert to an index.
    pub fn as_index(&self) -> (r: u8)
        ensures
            r == tone_index(*self),
    {
        match self {
            ToneMark::NoTone => 0,
            ToneMark::Sac => 1,
            ToneMark::Huyen => 2,
            ToneMark::Hoi => 3,
            ToneMark::Nga => 4,
            ToneMark::Nang => 5,
        }
    }
}

/// Positions of the vowels of `cs`, left to right.
pub open spec fn vowel_positions(cs: Seq<char>) -> Seq<int>
    decreases cs.len(),
{
    if cs.len() == 0 {
        Seq::empty()
    } else if is_vowel_char(cs.last()) {
        vowel_positions(cs.drop_last()).push(cs.len() - 1)
    } else {
        vowel_positions(cs.drop_last())
    }
}

proof fn lemma_vowel_positions_bounds(cs: Seq<char>)
    ensures
        forall|j: int|
            0 <= j < vowel_positions(cs).len() ==> 0 <= #[trigger] vowel_positions(cs)[j]
                < cs.len(),
        forall|j: int, k: int|
            0 <= j < k < vowel_positions(cs).len() ==> vowel_positions(cs)[j]
                < vowel_positions(cs)[k],
    decreases cs.len(),
{
    if cs.len() > 0 {
        let p = cs.drop_last();
        lemma_vowel_positions_bounds(p);
        let vp = vowel_positions(p);
        if is_vowel_char(cs.last()) {
            let q = vp.push(cs.len() - 1);
            assert(vowel_positions(cs) == q);
            assert forall|j: int| 0 <= j < q.len() implies 0 <= #[trigger] q[j] < cs.len() by {
                if j < vp.len() {
                    assert(q[j] == vp[j]);
                }
            }
            assert forall|j: int, k: int| 0 <= j < k < q.len() implies q[j] < q[k] by {
                assert(q[j] == vp[j]);
                if k < vp.len() {
                    assert(q[k] == vp[k]);
                }
            }
        }
    }
}

/// Whether a lowercase vowel pair forms a glide diphthong whose tone placement
/// depends on the style: oa, oe, uy, ue, uo, uô.
pub open spec fn is_glide_pair(l0: char, l1: char) -> bool {
    (l0 == 'o' && (l1 == 'a' || l1 == 'e')) || (l0 == 'u' && (l1 == 'y' || l1 == 'e' || l1 == 'o'
        || l1 == '\u{00F4}'))
}

/// "qu" followed by ua, uâ, uơ, uô, or "gi" followed by ia: the tone goes on the
/// second vowel.
pub open spec fn is_onset_pair(lw: Seq<char>, l0: char, l1: char) -> bool {
    (lw.len() >= 2 && lw[0] == 'q' && lw[1] == 'u' && l0 == 'u' && (l1 == 'a' || l1 == '\u{00E2}'
        || l1 == '\u{01A1}' || l1 == '\u{00F4}')) || (lw.len() >= 2 && lw[0] == 'g' && lw[1]
        == 'i' && l0 == 'i' && l1 == 'a')
}

/// Whether the word starts with "gi" or "qu" and has another vowel after
/// that i or u: the i or u then belongs to the onset.
pub open spec fn onset_takes_vowel(cs: Seq<char>) -> bool {
    let lw = str_lowercase(cs);
    vowel_positions(cs).len() >= 2 && lw.len() >= 2 && ((lw[0] == 'g' && lw[1] == 'i') || (lw[0]
        == 'q' && lw[1] == 'u'))
}

/// The vowels that can take the tone: when "gi" or "qu" is followed by
/// another vowel, its i or u belongs to the onset and is left out.
pub open spec fn tone_vowels(cs: Seq<char>) -> Seq<int> {
    if onset_takes_vowel(cs) {
        vowel_positions(cs).drop_first()
    } else {
        vowel_positions(cs)
    }
}

/// The position of the vowel that takes the tone. `style` is `None` for the
/// default placement of `place_tone`. With three or more vowels the tone goes
/// on the second, or on the third when it carries a modifier (as in "uyê").
/// After a "gi" or "qu" onset only the modifiers decide between the two
/// remaining vowels, whatever the style.
pub open spec fn tone_target(cs: Seq<char>, style: Option<TonePlacement>) -> int {
    let vp = tone_vowels(cs);
    if vp.len() == 1 {
        vp[0]
    } else if vp.len() == 2 {
        let l0 = lower1(cs[vp[0]]);
        let l1 = lower1(cs[vp[1]]);
        let m0 = is_modified_vowel_spec(cs[vp[0]]);
        let m1 = is_modified_vowel_spec(cs[vp[1]]);
        let coda_follows = cs.len() > vp[1] + 1;
        if is_onset_pair(str_lowercase(cs), l0, l1) {
            vp[1]
        } else if m0 && m1 {
            vp[1]
        } else if m0 {
            vp[0]
        } else if m1 {
            vp[1]
        } else if is_glide_pair(l0, l1) && !onset_takes_vowel(cs) {
            match style {
                None => if (l0 == 'u' && (l1 == 'y' || l1 == '\u{00F4}')) || coda_follows {
                    vp[1]
                } else {
                    vp[0]
                },
                Some(st) => if (l0 == 'u' && l1 == '\u{00F4}') || coda_follows {
                    vp[1]
                } else {
                    match st {
                        TonePlacement::Modern => vp[1],
                        TonePlacement::Traditional => vp[0],
                    }
                },
            }
        } else {
            vp[0]
        }
    } else if is_modified_vowel_spec(cs[vp[2]]) {
        vp[2]
    } else {
        vp[1]
    }
}

/// The word with tone `tone` placed, or `None` when it has no vowel or the
/// chosen vowel has no marked form. The marked letter keeps the case of the
/// letter it replaces.
pub open spec fn place_tone_spec(cs: Seq<char>, tone: u8, style: Option<TonePlacement>) -> Option<
    Seq<char>,
> {
    if tone == 0 {
        Some(cs)
    } else if vowel_positions(cs).len() == 0 {
        None
    } else {
        let t = tone_target(cs, style);
        let tc = cs[t];
        let tl = lower1(tc);
        if has_tone_row(tl) && tone <= 5 {
            let rep = tone_variant(tl, tone - 1);
            Some(cs.update(t, if char_is_uppercase(tc) { upper1(rep) } else { rep }))
        } else {
            None
        }
    }
}

/// Positions of the vowels of `cs`.
fn vowel_indices(cs: &Vec<char>) -> (r: Vec<usize>)
    ensures
        r@.len() == vowel_positions(cs@).len(),
        forall|j: int| 0 <= j < r@.len() ==> r@[j] as int == vowel_positions(cs@)[j],
{
    let mut r: Vec<usize> = Vec::new();
    let mut i: usize = 0;
    while i < cs.len()
        invariant
            i <= cs.len(),
            r@.len() == vowel_positions(cs@.take(i as int)).len(),
            forall|j: int|
                0 <= j < r@.len() ==> r@[j] as int == vowel_positions(cs@.take(i as int))[j],
        decreases cs.len() - i,
    {
        assert(cs@.take(i as int + 1).drop_last() == cs@.take(i as int));
        if is_vowel(cs[i]) {
            r.push(i);
        }
        i += 1;
    }
    assert(cs@.take(cs.len() as int) == cs@);
    r
}

/// Shared implementation of both placement functions.
fn place_tone_chars(cs: &mut Vec<char>, tone: u8, style: Option<TonePlacement>) -> (ok: bool)
    ensures
        ok ==> place_tone_spec(old(cs)@, tone, style) == Some(final(cs)@),
        !ok ==> place_tone_spec(old(cs)@, tone, style) is None,
{
    if tone == 0 {
        return true;
    }
    let mut vi = vowel_indices(cs);
    if vi.len() == 0 {
        return false;
    }
    proof {
        lemma_vowel_positions_bounds(cs@);
    }
    let lw0 = chars_to_lowercase(cs.as_slice());
    let dropped = vi.len() >= 2 && lw0.len() >= 2 && ((lw0[0] == 'g' && lw0[1] == 'i') || (lw0[0]
        == 'q' && lw0[1] == 'u'));
    if dropped {
        vi.remove(0);
    }
    assert(dropped == onset_takes_vowel(cs@));
    assert(vi@.len() == tone_vowels(cs@).len());
    assert(forall|j: int| 0 <= j < vi@.len() ==> vi@[j] as int == tone_vowels(cs@)[j]);
    assert(forall|j: int| 0 <= j < vi@.len() ==> 0 <= #[trigger] vi@[j] < cs@.len());
    let n = vi.len();
    let target: usize = if n == 1 {
        vi[0]
    } else if n == 2 {
        let l0 = lower_first(cs[vi[0]]);
        let l1 = lower_first(cs[vi[1]]);
        let m0 = is_modified_vowel(cs[vi[0]]);
        let m1 = is_modified_vowel(cs[vi[1]]);
        let coda_follows = cs.len() > vi[1] + 1;
        let lw = chars_to_lowercase(cs.as_slice());
        let onset_pair = (lw.len() >= 2 && lw[0] == 'q' && lw[1] == 'u' && l0 == 'u' && (l1 == 'a'
            || l1 == '\u{00E2}' || l1 == '\u{01A1}' || l1 == '\u{00F4}')) || (lw.len() >= 2
            && lw[0] == 'g' && lw[1] == 'i' && l0 == 'i' && l1 == 'a');
        let glide = (l0 == 'o' && (l1 == 'a' || l1 == 'e')) || (l0 == 'u' && (l1 == 'y' || l1
            == 'e' || l1 == 'o' || l1 == '\u{00F4}'));
        if onset_pair {
            vi[1]
        } else if m0 && m1 {
            vi[1]
        } else if m0 {
            vi[0]
        } else if m1 {
            vi[1]
        } else if glide && !dropped {
            match style {
                None => if (l0 == 'u' && (l1 == 'y' || l1 == '\u{00F4}')) || coda_follows {
                    vi[1]
                } else {
                    vi[0]
                },
                Some(st) => if (l0 == 'u' && l1 == '\u{00F4}') || coda_follows {
                    vi[1]
                } else {
                    match st {
                        TonePlacement::Modern => vi[1],
                        TonePlacement::Traditional => vi[0],
                    }
                },
            }
        } else {
            vi[0]
        }
    } else if is_modified_vowel(cs[vi[2]]) {
        vi[2]
    } else {
        vi[1]
    };
    assert(target as int == tone_target(cs@, style));
    let tc = cs[target];
    let tl = lower_first(tc);
    match tone_lookup(tl, tone) {
        Some(rep) => {
            let up = is_uppercase(tc);
            let c = if up {
                upper_first(rep)
            } else {
                rep
            };
            cs.set(target, c);
            true
        },
        None => false,
    }
}

/// Apply a tone mark to a word with the default placement.
///
/// Returns `None` if no suitable vowel is found.
pub fn place_tone(word: &str, tone: u8) -> (r: Option<String>)
    ensures
        opt_view(r) == place_tone_spec(word@, tone, None),
{
    let mut cs = chars_of(word);
    if place_tone_chars(&mut cs, tone, None) {
        Some(string_of(cs.as_slice()))
    } else {
        None
    }
}

/// Apply a tone mark with the given placement style for glide diphthongs.
pub fn place_tone_with_style(word: &str, tone: u8, style: TonePlacement) -> (r: Option<String>)
    ensures
        opt_view(r) == place_tone_spec(word@, tone, Some(style)),
{
    let mut cs = chars_of(word);
    if place_tone_chars(&mut cs, tone, Some(style)) {
        Some(string_of(cs.as_slice()))
    } else {
        None
    }
}

/// Placing a tone leaves tone 0 text as it is; otherwise it keeps the length
/// and changes at most the character at the target position.
pub proof fn law_place_tone_changes_one_char(cs: Seq<char>, tone: u8, style: Option<TonePlacement>)
    ensures
        tone == 0 ==> place_tone_spec(cs, tone, style) == Some(cs),
        place_tone_spec(cs, tone, style) matches Some(r) ==> r.len() == cs.len(),
        tone > 0 && place_tone_spec(cs, tone, style) is Some ==> 0 <= tone_target(cs, style) < cs.len(),
        place_tone_spec(cs, tone, style) matches Some(r) ==> forall|j: int|
            0 <= j < cs.len() && j != tone_target(cs, style) ==> r[j] == cs[j],
{
    lemma_vowel_positions_bounds(cs);
    let vp = tone_vowels(cs);
    assert(forall|j: int| 0 <= j < vp.len() ==> 0 <= #[trigger] vp[j] < cs.len());
    if tone > 0 && vp.len() > 0 {
        if vp.len() == 1 {
            assert(0 <= vp[0] < cs.len());
        } else {
            assert(0 <= vp[0] < cs.len());
            assert(0 <= vp[1] < cs.len());
            if vp.len() > 2 {
                assert(0 <= vp[2] < cs.len());
            }
        }
    }
}

/// The default placement is the traditional style, except for a word whose
/// only vowels are u then y with nothing after the y ("tuy"): there the
/// default marks the y and the traditional style the u.
pub proof fn law_default_placement_is_traditional(cs: Seq<char>, tone: u8)
    requires
        !({
            let vp = vowel_positions(cs);
            &&& vp.len() == 2
            &&& lower1(cs[vp[0]]) == 'u'
            &&& lower1(cs[vp[1]]) == 'y'
            &&& vp[1] == cs.len() - 1
        }),
    ensures
        place_tone_spec(cs, tone, None) == place_tone_spec(cs, tone, Some(TonePlacement::Traditional)),
{
    lemma_vowel_positions_bounds(cs);
    let vp = vowel_positions(cs);
    if vp.len() == 2 {
        assert(vp[1] < cs.len());
    }
    assert(tone_target(cs, None) == tone_target(cs, Some(TonePlacement::Traditional)));
}

} // verus!
