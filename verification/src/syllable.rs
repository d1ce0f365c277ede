//! Decomposition of a Vietnamese syllable into onset, vowel nucleus, coda and
//! tone.
use vstd::prelude::*;
use crate::text::{
    chars_of, chars_to_lowercase, copy_string, extend_chars, lower1, lower_first, push_str,
    str_lowercase, string_of, sub_chars,
};
use crate::unicode_map::{is_modified_char, is_vowel_char, modified_char, vowel_char};

verus! {

/// A decomposed Vietnamese syllable.
#[derive(Debug, Clone)]
pub struct Syllable {
    pub onset: String,
    pub vowel: String,
    pub coda: String,
    pub tone: u8,
}

/// The mathematical content of a syllable.
#[verifier::ext_equal]
pub struct SyllableView {
    pub onset: Seq<char>,
    pub vowel: Seq<char>,
    pub coda: Seq<char>,
    pub tone: u8,
}

impl View for Syllable {
    type V = SyllableView;

    open spec fn view(&self) -> SyllableView {
        SyllableView { onset: self.onset@, vowel: self.vowel@, coda: self.coda@, tone: self.tone }
    }
}

pub open spec fn empty_syllable() -> SyllableView {
    SyllableView { onset: Seq::empty(), vowel: Seq::empty(), coda: Seq::empty(), tone: 0 }
}

impl Syllable {
    /// Create a new empty syllable.
    pub fn new() -> (r: Self)
        ensures
            r@ == empty_syllable(),
    {
        Syllable { onset: String::new(), vowel: String::new(), coda: String::new(), tone: 0 }
    }

    /// Whether this syllable has any vowel content.
    pub fn has_vowel(&self) -> (r: bool)
        ensures
            r == (self.vowel@.len() > 0),
    {
        !self.vowel.as_str().is_empty()
    }

    /// The syllable written out without its tone.
    pub fn to_base_string(&self) -> (r: String)
        ensures
            r@ == self.onset@ + self.vowel@ + self.coda@,
    {
        let mut r = String::new();
        push_str(&mut r, self.onset.as_str());
        push_str(&mut r, self.vowel.as_str());
        push_str(&mut r, self.coda.as_str());
        r
    }

    /// A copy of this syllable.
    pub fn duplicate(&self) -> (r: Self)
        ensures
            r@ == self@,
    {
        Syllable {
            onset: copy_string(&self.onset),
            vowel: copy_string(&self.vowel),
            coda: copy_string(&self.coda),
            tone: self.tone,
        }
    }
}

/// Check if a character is a Vietnamese vowel (including all accents).
pub fn is_vowel(c: char) -> (r: bool)
    ensures
        r == is_vowel_char(c),
{
    vowel_char(c)
}

/// Whether a character is a modified vowel once lowercased.
pub open spec fn is_modified_vowel_spec(c: char) -> bool {
    is_modified_char(lower1(c))
}

/// Check if a character is a modified vowel (circumflex, breve, horn).
pub fn is_modified_vowel(c: char) -> (r: bool)
    ensures
        r == is_modified_vowel_spec(c),
{
    let lc = lower_first(c);
    modified_char(lc)
}

/// Whether a character sequence contains a vowel.
pub open spec fn has_vowel_seq(s: Seq<char>) -> bool {
    exists|i: int| 0 <= i < s.len() && is_vowel_char(#[trigger] s[i])
}

pub proof fn lemma_has_vowel_push(s: Seq<char>, c: char)
    ensures
        has_vowel_seq(s.push(c)) == (has_vowel_seq(s) || is_vowel_char(c)),
{
    if has_vowel_seq(s) {
        let i = choose|i: int| 0 <= i < s.len() && is_vowel_char(#[trigger] s[i]);
        assert(s.push(c)[i] == s[i]);
    }
    if is_vowel_char(c) {
        assert(s.push(c)[s.len() as int] == c);
    }
    if has_vowel_seq(s.push(c)) {
        let i = choose|i: int| 0 <= i < s.len() + 1 && is_vowel_char(#[trigger] s.push(c)[i]);
        if i < s.len() {
            assert(s.push(c)[i] == s[i]);
        }
    }
}

pub proof fn lemma_has_vowel_empty()
    ensures
        !has_vowel_seq(Seq::<char>::empty()),
{
}

/// Index of the first vowel at or after `i`, or `cs.len()` when there is none.
pub open spec fn first_vowel_from(cs: Seq<char>, i: int) -> int
    decreases cs.len() - i,
{
    if i >= cs.len() {
        cs.len() as int
    } else if is_vowel_char(cs[i]) {
        i
    } else {
        first_vowel_from(cs, i + 1)
    }
}

/// Index of the last vowel before `j`, or -1 when there is none.
pub open spec fn last_vowel_before(cs: Seq<char>, j: int) -> int
    decreases j,
{
    if j <= 0 {
        -1
    } else if is_vowel_char(cs[j - 1]) {
        j - 1
    } else {
        last_vowel_before(cs, j - 1)
    }
}

/// Whether all characters of `cs[a..b]` are vowels.
pub open spec fn all_vowels_between(cs: Seq<char>, a: int, b: int) -> bool {
    forall|k: int| a <= k < b ==> is_vowel_char(#[trigger] cs[k])
}

/// The syllable that `parse` produces from a transformed string and a tone.
///
/// The vowel nucleus spans the first to the last vowel. A leading "gi" or
/// "qu" keeps its vowel letter in the onset (for "gi" only when more vowels
/// follow). When a consonant sits inside the nucleus the whole text becomes
/// the onset. A doubled final vowel letter moves to the coda.
pub open spec fn parse_spec(cs: Seq<char>, tone: u8) -> SyllableView {
    if cs.len() == 0 {
        SyllableView { tone: tone, ..empty_syllable() }
    } else {
        let vs = first_vowel_from(cs, 0);
        if vs == cs.len() {
            SyllableView { onset: cs, vowel: Seq::empty(), coda: Seq::empty(), tone: tone }
        } else {
            let ve = last_vowel_before(cs, cs.len() as int);
            let pre = str_lowercase(cs.take(vs));
            let is_gi = pre == seq!['g'] && cs[vs] == 'i';
            let is_qu = pre == seq!['q'] && cs[vs] == 'u';
            let shift: int = if is_gi {
                if vs == ve {
                    0
                } else {
                    1
                }
            } else if is_qu {
                1
            } else {
                0
            };
            if !all_vowels_between(cs, vs, ve + 1) {
                SyllableView { onset: cs, vowel: Seq::empty(), coda: Seq::empty(), tone: tone }
            } else {
                let onset = cs.take(vs + shift);
                let vowel = cs.subrange(vs + shift, ve + 1);
                let coda = cs.skip(ve + 1);
                if vowel.len() >= 2 && vowel.last() == vowel[vowel.len() - 2] {
                    SyllableView {
                        onset: onset,
                        vowel: vowel.drop_last(),
                        coda: seq![vowel.last()] + coda,
                        tone: tone,
                    }
                } else {
                    SyllableView { onset: onset, vowel: vowel, coda: coda, tone: tone }
                }
            }
        }
    }
}

/// Index of the first vowel of `cs`, or its length.
fn first_vowel(cs: &Vec<char>) -> (r: usize)
    ensures
        r == first_vowel_from(cs@, 0),
{
    let mut i: usize = 0;
    while i < cs.len()
        invariant
            i <= cs.len(),
            first_vowel_from(cs@, i as int) == first_vowel_from(cs@, 0),
        decreases cs.len() - i,
    {
        if is_vowel(cs[i]) {
            return i;
        }
        i += 1;
    }
    i
}

/// Index of the last vowel of `cs`, if any.
fn last_vowel(cs: &Vec<char>) -> (r: Option<usize>)
    ensures
        match r {
            Some(k) => k as int == last_vowel_before(cs@, cs@.len() as int),
            None => last_vowel_before(cs@, cs@.len() as int) == -1,
        },
{
    let mut j: usize = cs.len();
    while j > 0
        invariant
            j <= cs.len(),
            last_vowel_before(cs@, j as int) == last_vowel_before(cs@, cs@.len() as int),
        decreases j,
    {
        if is_vowel(cs[j - 1]) {
            return Some(j - 1);
        }
        j -= 1;
    }
    None
}

proof fn lemma_last_vowel_range(cs: Seq<char>, j: int)
    requires
        0 <= j <= cs.len(),
    ensures
        -1 <= last_vowel_before(cs, j) < j,
        last_vowel_before(cs, j) >= 0 ==> is_vowel_char(cs[last_vowel_before(cs, j)]),
    decreases j,
{
    if j > 0 {
        lemma_last_vowel_range(cs, j - 1);
    }
}

proof fn lemma_first_vowel_range(cs: Seq<char>, i: int)
    requires
        0 <= i <= cs.len(),
    ensures
        i <= first_vowel_from(cs, i) <= cs.len(),
        first_vowel_from(cs, i) < cs.len() ==> is_vowel_char(cs[first_vowel_from(cs, i)]),
    decreases cs.len() - i,
{
    if i < cs.len() {
        lemma_first_vowel_range(cs, i + 1);
    }
}

/// The last vowel is at or after the first one.
proof fn lemma_first_before_last(cs: Seq<char>, i: int, j: int)
    requires
        0 <= i <= j <= cs.len(),
        i < cs.len(),
        is_vowel_char(cs[i]),
        i < j,
    ensures
        last_vowel_before(cs, j) >= i,
    decreases j,
{
    if j - 1 > i && !is_vowel_char(cs[j - 1]) {
        lemma_first_before_last(cs, i, j - 1);
    }
}

/// Parse a transformed string (characters) into a syllable view.
pub fn parse_chars(cs: &Vec<char>, tone: u8) -> (r: Syllable)
    ensures
        r@ == parse_spec(cs@, tone),
{
    if cs.len() == 0 {
        let mut s = Syllable::new();
        s.tone = tone;
        return s;
    }
    let vs = first_vowel(cs);
    if vs == cs.len() {
        return Syllable { onset: string_of(cs.as_slice()), vowel: String::new(), coda: String::new(), tone };
    }
    proof {
        lemma_first_vowel_range(cs@, 0);
        lemma_first_before_last(cs@, vs as int, cs@.len() as int);
        lemma_last_vowel_range(cs@, cs@.len() as int);
    }
    let ve = match last_vowel(cs) {
        Some(k) => k,
        None => {
            return Syllable { onset: string_of(cs.as_slice()), vowel: String::new(), coda: String::new(), tone };
        },
    };
    let pre_chars = sub_chars(cs.as_slice(), 0, vs);
    let pre = chars_to_lowercase(pre_chars.as_slice());
    proof {
        assert(pre_chars@ == cs@.take(vs as int));
    }
    let pre_g = pre.len() == 1 && pre[0] == 'g';
    let pre_q = pre.len() == 1 && pre[0] == 'q';
    proof {
        assert(pre_g == (pre@ == seq!['g'])) by {
            if pre@.len() == 1 && pre@[0] == 'g' {
                assert(pre@ =~= seq!['g']);
            }
        }
        assert(pre_q == (pre@ == seq!['q'])) by {
            if pre@.len() == 1 && pre@[0] == 'q' {
                assert(pre@ =~= seq!['q']);
            }
        }
    }
    let is_gi = pre_g && cs[vs] == 'i';
    let is_qu = pre_q && cs[vs] == 'u';
    let mut shift: usize = 0;
    if is_gi {
        if vs != ve {
            shift = 1;
        }
    } else if is_qu {
        shift = 1;
    }
    // Any consonant inside the vowel span?
    let mut k: usize = vs;
    while k <= ve
        invariant
            vs <= k <= ve + 1,
            ve < cs.len(),
            cs.len() > 0,
            vs as int == first_vowel_from(cs@, 0),
            vs < cs.len(),
            ve as int == last_vowel_before(cs@, cs@.len() as int),
            all_vowels_between(cs@, vs as int, k as int),
        decreases ve + 1 - k,
    {
        if !is_vowel(cs[k]) {
            proof {
                assert(!all_vowels_between(cs@, vs as int, ve as int + 1)) by {
                    assert(!is_vowel_char(cs@[k as int]));
                }
            }
            return Syllable {
                onset: string_of(cs.as_slice()),
                vowel: String::new(),
                coda: String::new(),
                tone,
            };
        }
        k += 1;
    }
    let onset = sub_chars(cs.as_slice(), 0, vs + shift);
    let vowel = sub_chars(cs.as_slice(), vs + shift, ve + 1);
    let coda = sub_chars(cs.as_slice(), ve + 1, cs.len());
    proof {
        assert(onset@ == cs@.take(vs + shift));
        assert(coda@ == cs@.skip(ve + 1));
    }
    let vl = vowel.len();
    if vl >= 2 && vowel[vl - 1] == vowel[vl - 2] {
        let last = vowel[vl - 1];
        let v2 = sub_chars(vowel.as_slice(), 0, vl - 1);
        let mut c2: Vec<char> = Vec::new();
        c2.push(last);
        extend_chars(&mut c2, coda.as_slice());
        proof {
            assert(v2@ == vowel@.drop_last());
            assert(c2@ == seq![vowel@.last()] + coda@);
        }
        Syllable {
            onset: string_of(onset.as_slice()),
            vowel: string_of(v2.as_slice()),
            coda: string_of(c2.as_slice()),
            tone,
        }
    } else {
        Syllable {
            onset: string_of(onset.as_slice()),
            vowel: string_of(vowel.as_slice()),
            coda: string_of(coda.as_slice()),
            tone,
        }
    }
}

/// Parse a transformed string into a Syllable struct.
pub fn parse(transformed: &str, tone: u8) -> (r: Syllable)
    ensures
        r@ == parse_spec(transformed@, tone),
{
    let cs = chars_of(transformed);
    parse_chars(&cs, tone)
}

/// Parsing splits its input: onset, vowel and coda put back together give
/// the input, the tone is kept, the vowel part holds only vowels, and a text
/// without a vowel is all onset.
pub proof fn law_parse_splits_input(cs: Seq<char>, tone: u8)
    ensures
        ({
            let y = parse_spec(cs, tone);
            &&& y.onset + y.vowel + y.coda == cs
            &&& y.tone == tone
            &&& forall|k: int| 0 <= k < y.vowel.len() ==> is_vowel_char(#[trigger] y.vowel[k])
            &&& !has_vowel_seq(cs) ==> y.onset == cs && y.vowel.len() == 0 && y.coda.len() == 0
        }),
{
    let y = parse_spec(cs, tone);
    if cs.len() == 0 {
        assert(y.onset + y.vowel + y.coda =~= cs);
    } else {
        lemma_first_vowel_range(cs, 0);
        let vs = first_vowel_from(cs, 0);
        if vs == cs.len() {
            assert(y.onset + y.vowel + y.coda =~= cs);
        } else {
            assert(has_vowel_seq(cs));
            lemma_first_before_last(cs, vs, cs.len() as int);
            lemma_last_vowel_range(cs, cs.len() as int);
            let ve = last_vowel_before(cs, cs.len() as int);
            if !all_vowels_between(cs, vs, ve + 1) {
                assert(y.onset + y.vowel + y.coda =~= cs);
            } else {
                let pre = str_lowercase(cs.take(vs));
                let is_gi = pre == seq!['g'] && cs[vs] == 'i';
                let is_qu = pre == seq!['q'] && cs[vs] == 'u';
                let shift: int = if is_gi {
                    if vs == ve {
                        0
                    } else {
                        1
                    }
                } else if is_qu {
                    1
                } else {
                    0
                };
                let onset = cs.take(vs + shift);
                let vowel = cs.subrange(vs + shift, ve + 1);
                let coda = cs.skip(ve + 1);
                assert(onset + vowel + coda =~= cs);
                assert forall|k: int| 0 <= k < vowel.len() implies is_vowel_char(
                    #[trigger] vowel[k],
                ) by {
                    assert(vowel[k] == cs[vs + shift + k]);
                }
                if vowel.len() >= 2 && vowel.last() == vowel[vowel.len() - 2] {
                    assert(onset + vowel.drop_last() + (seq![vowel.last()] + coda) =~= cs);
                    assert forall|k: int| 0 <= k < vowel.drop_last().len() implies is_vowel_char(
                        #[trigger] vowel.drop_last()[k],
                    ) by {
                        assert(vowel.drop_last()[k] == vowel[k]);
                    }
                }
            }
        }
    }
}

} // verus!
