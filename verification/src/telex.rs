//! Telex input: tone keys (s f r x j, z to clear), vowel modifiers (aa ee oo
//! dd, w for breve and horn, [ and ] for ư and ơ) and their cancellation by
//! repetition.
use vstd::prelude::*;
use crate::syllable::{has_vowel_seq, is_vowel, lemma_has_vowel_empty, lemma_has_vowel_push};
use crate::text::{
    chars_of, lower1, lower_first, one, replace_all, replace_chars, string_of, three, two,
};

verus! {

/// The state carried while tone keys are read.
pub struct ToneScan {
    pub core: Seq<char>,
    pub tone: u8,
    pub last_key: Option<char>,
}

/// Tone of a Telex key: 1..=5 for s f r x j, 0 for z, 255 for any other key.
pub open spec fn telex_tone_key(c: char) -> u8 {
    if c == 's' {
        1
    } else if c == 'f' {
        2
    } else if c == 'r' {
        3
    } else if c == 'x' {
        4
    } else if c == 'j' {
        5
    } else if c == 'z' {
        0
    } else {
        255
    }
}

/// One key of tone extraction. Tone keys only act once the core holds a vowel;
/// pressing the same tone key twice cancels the tone and keeps the letter.
pub open spec fn tone_scan_step(st: ToneScan, c: char) -> ToneScan {
    if has_vowel_seq(st.core) {
        let nt = telex_tone_key(c);
        if nt == 255 {
            ToneScan { core: st.core.push(c), tone: st.tone, last_key: None }
        } else if nt == 0 {
            ToneScan { core: st.core, tone: 0, last_key: Some(c) }
        } else if st.last_key == Some(c) {
            ToneScan { core: st.core.push(c), tone: 0, last_key: None }
        } else {
            ToneScan { core: st.core, tone: nt, last_key: Some(c) }
        }
    } else {
        ToneScan { core: st.core.push(c), tone: st.tone, last_key: None }
    }
}

/// Tone extraction over the whole input, key by key.
pub open spec fn tone_scan(input: Seq<char>) -> ToneScan
    decreases input.len(),
{
    if input.len() == 0 {
        ToneScan { core: Seq::empty(), tone: 0, last_key: None }
    } else {
        tone_scan_step(tone_scan(input.drop_last()), input.last())
    }
}

/// Split a Telex input into its letters and its tone index.
pub fn extract_tone(input: &str) -> (r: (String, u8))
    ensures
        r.0@ == tone_scan(input@).core,
        r.1 == tone_scan(input@).tone,
{
    let cs = chars_of(input);
    let mut core: Vec<char> = Vec::new();
    let mut tone: u8 = 0;
    let mut last_key: Option<char> = None;
    let mut has_vowel = false;
    let mut i: usize = 0;
    proof {
        lemma_has_vowel_empty();
    }
    while i < cs.len()
        invariant
            i <= cs.len(),
            core@ == tone_scan(cs@.take(i as int)).core,
            tone == tone_scan(cs@.take(i as int)).tone,
            last_key == tone_scan(cs@.take(i as int)).last_key,
            has_vowel == has_vowel_seq(core@),
        decreases cs.len() - i,
    {
        let c = cs[i];
        assert(cs@.take(i as int + 1).drop_last() == cs@.take(i as int));
        let ghost old_core = core@;
        let old_len = core.len();
        if has_vowel {
            let nt: u8 = if c == 's' {
                1
            } else if c == 'f' {
                2
            } else if c == 'r' {
                3
            } else if c == 'x' {
                4
            } else if c == 'j' {
                5
            } else if c == 'z' {
                0
            } else {
                255
            };
            if nt == 255 {
                core.push(c);
                last_key = None;
            } else if nt == 0 {
                tone = 0;
                last_key = Some(c);
            } else if last_key == Some(c) {
                tone = 0;
                core.push(c);
                last_key = None;
            } else {
                tone = nt;
                last_key = Some(c);
            }
        } else {
            core.push(c);
            last_key = None;
        }
        proof {
            lemma_has_vowel_push(old_core, c);
        }
        if core.len() > old_len {
            has_vowel = has_vowel || is_vowel(c);
        }
        i += 1;
    }
    assert(cs@.take(cs.len() as int) == cs@);
    (string_of(core.as_slice()), tone)
}

/// Index just past the run of `c` that starts at `j`.
pub open spec fn run_end(cs: Seq<char>, j: int, c: char) -> int
    decreases cs.len() - j,
{
    if 0 <= j < cs.len() && cs[j] == c {
        run_end(cs, j + 1, c)
    } else {
        j
    }
}

pub proof fn lemma_run_end(cs: Seq<char>, j: int, c: char)
    requires
        0 <= j <= cs.len(),
    ensures
        j <= run_end(cs, j, c) <= cs.len(),
        j < cs.len() && cs[j] == c ==> run_end(cs, j, c) > j,
        forall|k: int| j <= k < run_end(cs, j, c) ==> cs[k] == c,
    decreases cs.len() - j,
{
    if j < cs.len() && cs[j] == c {
        lemma_run_end(cs, j + 1, c);
    }
}

/// `n` copies of `c`.
pub open spec fn repeat_char(c: char, n: int) -> Seq<char> {
    Seq::new(if n > 0 { n as nat } else { 0 }, |_i: int| c)
}

/// The letter a doubled a, e, o or d stands for: â, ê, ô, đ.
pub open spec fn doubled_letter(c: char) -> char {
    if c == 'a' {
        '\u{00E2}'
    } else if c == 'e' {
        '\u{00EA}'
    } else if c == 'o' {
        '\u{00F4}'
    } else {
        '\u{0111}'
    }
}

/// What a run of `run` copies of `c` becomes: a doubled a, e, o or d is the
/// modified letter and a longer run drops one copy; a single [ or ] is ư or
/// ơ and a longer run is the bracket itself; anything else stays.
pub open spec fn run_piece(c: char, run: int) -> Seq<char> {
    if c == 'a' || c == 'e' || c == 'o' || c == 'd' {
        if run >= 3 {
            repeat_char(c, run - 1)
        } else if run == 2 {
            seq![doubled_letter(c)]
        } else {
            repeat_char(c, run)
        }
    } else if c == '[' || c == ']' {
        if run >= 2 {
            seq![c]
        } else if c == '[' {
            seq!['\u{01B0}']
        } else {
            seq!['\u{01A1}']
        }
    } else {
        repeat_char(c, run)
    }
}

/// The run-by-run rewriting of `cs` from position `i` on.
pub open spec fn runs_from(cs: Seq<char>, i: int) -> Seq<char>
    decreases cs.len() - i,
{
    if i < 0 || i >= cs.len() {
        Seq::empty()
    } else {
        let e = run_end(cs, i, cs[i]);
        proof {
            lemma_run_end(cs, i, cs[i]);
        }
        if e > i {
            run_piece(cs[i], e - i) + runs_from(cs, e)
        } else {
            Seq::empty()
        }
    }
}

/// Largest `k` in `1..=i` with `s[k-1] == a` and `s[k] == b`, or 0.
pub open spec fn find_pair(s: Seq<char>, i: int, a: char, b: char) -> int
    decreases i,
{
    if i < 1 || i >= s.len() {
        0
    } else if s[i] == b && s[i - 1] == a {
        i
    } else {
        find_pair(s, i - 1, a, b)
    }
}

/// Largest `k <= i` with `s[k] == c`, or -1.
pub open spec fn find_last(s: Seq<char>, i: int, c: char) -> int
    decreases i + 1,
{
    if i < 0 || i >= s.len() {
        -1
    } else if s[i] == c {
        i
    } else {
        find_last(s, i - 1, c)
    }
}

/// u, o, a with their horn or breve: ư, ơ, ă.
pub open spec fn horn_of(c: char) -> char {
    if c == 'u' {
        '\u{01B0}'
    } else if c == 'o' {
        '\u{01A1}'
    } else {
        '\u{0103}'
    }
}

/// Late-binding w: the rightmost "uo" becomes "ươ" (only "ơ" after q), else
/// the rightmost "uô" becomes "ươ" (only "ơ" after q), else a single vowel
/// takes its horn or breve: the rightmost u first, else the rightmost o or a
/// (so "oa" followed by w is "oă").
pub open spec fn late_w(s: Seq<char>) -> Seq<char> {
    let k = find_pair(s, s.len() - 1, 'u', 'o');
    if k >= 1 {
        if k >= 2 && s[k - 2] == 'q' {
            s.update(k, '\u{01A1}')
        } else {
            s.update(k, '\u{01A1}').update(k - 1, '\u{01B0}')
        }
    } else {
        let k2 = find_pair(s, s.len() - 1, 'u', '\u{00F4}');
        if k2 >= 1 {
            if k2 < 2 || s[k2 - 2] != 'q' {
                s.update(k2, '\u{01A1}').update(k2 - 1, '\u{01B0}')
            } else {
                s.update(k2, '\u{01A1}')
            }
        } else {
            let ku = find_last(s, s.len() - 1, 'u');
            let ko = find_last(s, s.len() - 1, 'o');
            let ka = find_last(s, s.len() - 1, 'a');
            if ku >= 0 {
                s.update(ku, '\u{01B0}')
            } else if ko >= 0 && ko > ka {
                s.update(ko, '\u{01A1}')
            } else if ka >= 0 {
                s.update(ka, '\u{0103}')
            } else {
                s
            }
        }
    }
}

/// Letters after which a final w stays a literal w.
pub open spec fn is_w_blocker(c: char) -> bool {
    c == '\u{01B0}' || c == '\u{01A1}' || c == '\u{0103}' || c == '\u{00E2}' || c == '\u{00EA}'
        || c == '\u{00F4}' || c == '\u{0111}'
}

/// A single w at the end of the word.
pub open spec fn final_w(acc: Seq<char>) -> Seq<char> {
    let late = late_w(acc);
    if late != acc {
        late
    } else if acc.len() > 0 && is_w_blocker(acc.last()) {
        acc.push('w')
    } else {
        acc.push('\u{01B0}')
    }
}

/// A single w inside the word, applied to the text before it.
pub open spec fn inner_w(acc: Seq<char>) -> Seq<char> {
    if acc.len() == 0 {
        acc.push('\u{01B0}')
    } else {
        let prev = acc.last();
        if prev == 'o' && acc.len() >= 2 && acc[acc.len() - 2] == 'u' {
            if acc.len() >= 3 && lower1(acc[acc.len() - 3]) == 'q' {
                acc.drop_last().push('\u{01A1}')
            } else {
                acc.drop_last().drop_last().push('\u{01B0}').push('\u{01A1}')
            }
        } else if prev == 'u' || prev == 'o' || prev == 'a' {
            acc.drop_last().push(horn_of(prev))
        } else {
            acc.push('\u{01B0}')
        }
    }
}

/// Resolution of the w keys of `cs` from position `i`, given the text `acc`
/// produced so far: a run of several w is that many minus one literal w.
pub open spec fn resolve_w(cs: Seq<char>, i: int, acc: Seq<char>) -> Seq<char>
    decreases cs.len() - i,
{
    if i < 0 || i >= cs.len() {
        acc
    } else if cs[i] == 'w' {
        let e = run_end(cs, i, 'w');
        proof {
            lemma_run_end(cs, i, 'w');
        }
        if e <= i {
            acc
        } else if e - i > 1 {
            resolve_w(cs, e, acc + repeat_char('w', e - i - 1))
        } else if i == cs.len() - 1 {
            resolve_w(cs, e, final_w(acc))
        } else {
            resolve_w(cs, e, inner_w(acc))
        }
    } else {
        resolve_w(cs, i + 1, acc.push(cs[i]))
    }
}

/// The result of `apply_modifiers` on a tone-free core.
pub open spec fn telex_modifiers_spec(cs: Seq<char>) -> Seq<char> {
    resolve_w(runs_from(cs, 0), 0, Seq::empty())
}

/// End of the run of `c` that starts at `i`.
fn run_end_exec(cs: &Vec<char>, i: usize, c: char) -> (e: usize)
    requires
        i <= cs.len(),
    ensures
        e as int == run_end(cs@, i as int, c),
{
    let mut e = i;
    while e < cs.len() && cs[e] == c
        invariant
            i <= e <= cs.len(),
            run_end(cs@, e as int, c) == run_end(cs@, i as int, c),
        decreases cs.len() - e,
    {
        e += 1;
    }
    e
}

fn push_repeat(out: &mut Vec<char>, c: char, n: usize)
    ensures
        final(out)@ == old(out)@ + repeat_char(c, n as int),
{
    let mut k: usize = 0;
    while k < n
        invariant
            k <= n,
            out@ == old(out)@ + repeat_char(c, k as int),
        decreases n - k,
    {
        out.push(c);
        assert(repeat_char(c, k as int + 1) == repeat_char(c, k as int).push(c));
        k += 1;
    }
}

/// The run-by-run rewriting.
fn rewrite_runs(cs: &Vec<char>) -> (r: Vec<char>)
    ensures
        r@ == runs_from(cs@, 0),
{
    let mut out: Vec<char> = Vec::new();
    let mut i: usize = 0;
    while i < cs.len()
        invariant
            i <= cs.len(),
            out@ + runs_from(cs@, i as int) == runs_from(cs@, 0),
        decreases cs.len() - i,
    {
        let c = cs[i];
        let e = run_end_exec(cs, i, c);
        proof {
            lemma_run_end(cs@, i as int, c);
        }
        let run = e - i;
        let ghost prev = out@;
        if c == 'a' || c == 'e' || c == 'o' || c == 'd' {
            if run >= 3 {
                push_repeat(&mut out, c, run - 1);
            } else if run == 2 {
                let m = if c == 'a' {
                    '\u{00E2}'
                } else if c == 'e' {
                    '\u{00EA}'
                } else if c == 'o' {
                    '\u{00F4}'
                } else {
                    '\u{0111}'
                };
                out.push(m);
            } else {
                push_repeat(&mut out, c, run);
            }
        } else if c == '[' || c == ']' {
            if run >= 2 {
                out.push(c);
            } else if c == '[' {
                out.push('\u{01B0}');
            } else {
                out.push('\u{01A1}');
            }
        } else {
            push_repeat(&mut out, c, run);
        }
        assert(out@ == prev + run_piece(c, run as int));
        assert(prev + run_piece(c, run as int) + runs_from(cs@, e as int) == prev + (run_piece(
            c,
            run as int,
        ) + runs_from(cs@, e as int)));
        i = e;
    }
    out
}

fn find_pair_exec(s: &Vec<char>, a: char, b: char) -> (k: usize)
    ensures
        k as int == find_pair(s@, s@.len() - 1, a, b),
{
    if s.len() == 0 {
        return 0;
    }
    let mut i: usize = s.len() - 1;
    while i >= 1
        invariant
            i < s.len(),
            find_pair(s@, i as int, a, b) == find_pair(s@, s@.len() - 1, a, b),
        decreases i,
    {
        if s[i] == b && s[i - 1] == a {
            return i;
        }
        i -= 1;
    }
    0
}

fn find_last_exec(s: &Vec<char>, c: char) -> (k: Option<usize>)
    ensures
        match k {
            Some(j) => j as int == find_last(s@, s@.len() - 1, c),
            None => find_last(s@, s@.len() - 1, c) == -1,
        },
{
    let mut i: usize = s.len();
    while i > 0
        invariant
            i <= s.len(),
            find_last(s@, i - 1, c) == find_last(s@, s@.len() - 1, c),
        decreases i,
    {
        if s[i - 1] == c {
            return Some(i - 1);
        }
        i -= 1;
    }
    None
}

fn horn_exec(c: char) -> (r: char)
    ensures
        r == horn_of(c),
{
    if c == 'u' {
        '\u{01B0}'
    } else if c == 'o' {
        '\u{01A1}'
    } else {
        '\u{0103}'
    }
}

/// Late-binding w on the text produced so far.
fn late_w_exec(s: &Vec<char>) -> (r: Vec<char>)
    ensures
        r@ == late_w(s@),
        r@.len() == s@.len(),
{
    proof {
        lemma_find_pair_range(s@, s@.len() - 1, 'u', 'o');
        lemma_find_pair_range(s@, s@.len() - 1, 'u', '\u{00F4}');
        lemma_find_last_range(s@, s@.len() - 1, 'u');
        lemma_find_last_range(s@, s@.len() - 1, 'o');
        lemma_find_last_range(s@, s@.len() - 1, 'a');
    }
    let mut r = s.clone();
    assert(r@ == s@);
    let k = find_pair_exec(s, 'u', 'o');
    if k >= 1 {
        if k >= 2 && s[k - 2] == 'q' {
            r.set(k, '\u{01A1}');
        } else {
            r.set(k, '\u{01A1}');
            r.set(k - 1, '\u{01B0}');
        }
        return r;
    }
    let k2 = find_pair_exec(s, 'u', '\u{00F4}');
    if k2 >= 1 {
        r.set(k2, '\u{01A1}');
        if k2 < 2 || s[k2 - 2] != 'q' {
            r.set(k2 - 1, '\u{01B0}');
        }
        return r;
    }
    match find_last_exec(s, 'u') {
        Some(ku) => {
            r.set(ku, '\u{01B0}');
            return r;
        },
        None => {},
    }
    let ko = find_last_exec(s, 'o');
    let ka = find_last_exec(s, 'a');
    match (ko, ka) {
        (Some(io), Some(ia)) => {
            if io > ia {
                r.set(io, '\u{01A1}');
            } else {
                r.set(ia, '\u{0103}');
            }
        },
        (Some(io), None) => {
            r.set(io, '\u{01A1}');
        },
        (None, Some(ia)) => {
            r.set(ia, '\u{0103}');
        },
        (None, None) => {},
    }
    r
}

proof fn lemma_find_pair_range(s: Seq<char>, i: int, a: char, b: char)
    ensures
        find_pair(s, i, a, b) == 0 || (1 <= find_pair(s, i, a, b) < s.len() && s[find_pair(
            s,
            i,
            a,
            b,
        )] == b && s[find_pair(s, i, a, b) - 1] == a),
    decreases i,
{
    if i >= 1 && i < s.len() && !(s[i] == b && s[i - 1] == a) {
        lemma_find_pair_range(s, i - 1, a, b);
    }
}

proof fn lemma_find_last_range(s: Seq<char>, i: int, c: char)
    ensures
        -1 <= find_last(s, i, c) < s.len(),
        find_last(s, i, c) >= 0 ==> s[find_last(s, i, c)] == c,
    decreases i + 1,
{
    if i >= 0 && i < s.len() && s[i] != c {
        lemma_find_last_range(s, i - 1, c);
    }
}

fn is_w_blocker_exec(c: char) -> (r: bool)
    ensures
        r == is_w_blocker(c),
{
    c == '\u{01B0}' || c == '\u{01A1}' || c == '\u{0103}' || c == '\u{00E2}' || c == '\u{00EA}'
        || c == '\u{00F4}' || c == '\u{0111}'
}

/// A single w at the end of the word.
fn final_w_exec(acc: &Vec<char>) -> (r: Vec<char>)
    ensures
        r@ == final_w(acc@),
        r@.len() <= acc@.len() + 1,
{
    let late = late_w_exec(acc);
    if !crate::text::chars_eq(late.as_slice(), acc.as_slice()) {
        return late;
    }
    let mut r = acc.clone();
    assert(r@ == acc@);
    if acc.len() > 0 && is_w_blocker_exec(acc[acc.len() - 1]) {
        r.push('w');
    } else {
        r.push('\u{01B0}');
    }
    r
}

/// A single w inside the word.
fn inner_w_exec(acc: &mut Vec<char>)
    ensures
        final(acc)@ == inner_w(old(acc)@),
        final(acc)@.len() <= old(acc)@.len() + 1,
{
    let n = acc.len();
    if n == 0 {
        acc.push('\u{01B0}');
        return ;
    }
    let prev = acc[n - 1];
    if prev == 'o' && n >= 2 && acc[n - 2] == 'u' {
        if n >= 3 && lower_first(acc[n - 3]) == 'q' {
            acc.pop();
            acc.push('\u{01A1}');
        } else {
            acc.pop();
            acc.pop();
            acc.push('\u{01B0}');
            acc.push('\u{01A1}');
        }
    } else if prev == 'u' || prev == 'o' || prev == 'a' {
        acc.pop();
        acc.push(horn_exec(prev));
    } else {
        acc.push('\u{01B0}');
    }
}

/// Resolution of the w keys.
fn resolve_w_exec(cs: &Vec<char>) -> (r: Vec<char>)
    ensures
        r@ == resolve_w(cs@, 0, Seq::empty()),
{
    let mut acc: Vec<char> = Vec::new();
    let mut i: usize = 0;
    while i < cs.len()
        invariant
            i <= cs.len(),
            resolve_w(cs@, i as int, acc@) == resolve_w(cs@, 0, Seq::empty()),
        decreases cs.len() - i,
    {
        if cs[i] == 'w' {
            let e = run_end_exec(cs, i, 'w');
            proof {
                lemma_run_end(cs@, i as int, 'w');
            }
            let run = e - i;
            if run > 1 {
                push_repeat(&mut acc, 'w', run - 1);
            } else if i == cs.len() - 1 {
                acc = final_w_exec(&acc);
            } else {
                inner_w_exec(&mut acc);
            }
            i = e;
        } else {
            acc.push(cs[i]);
            i += 1;
        }
    }
    acc
}

/// Apply the Telex modifiers (doubled letters, brackets and w) to a core.
pub fn apply_modifiers(input: &str) -> (r: String)
    ensures
        r@ == telex_modifiers_spec(input@),
{
    let cs = chars_of(input);
    let first = rewrite_runs(&cs);
    let out = resolve_w_exec(&first);
    string_of(out.as_slice())
}

/// The w rules of TelexEx: "uow" is "ươ", then "aw", "ow" and "uw" are ă, ơ
/// and ư; every other w stays a literal w.
pub open spec fn w_rules(s: Seq<char>) -> Seq<char> {
    let s1 = replace_all(s, seq!['u', 'o', 'w'], seq!['\u{01B0}', '\u{01A1}']);
    let s2 = replace_all(s1, seq!['a', 'w'], seq!['\u{0103}']);
    let s3 = replace_all(s2, seq!['o', 'w'], seq!['\u{01A1}']);
    replace_all(s3, seq!['u', 'w'], seq!['\u{01B0}'])
}

/// The result of `apply_modifiers_no_smart_w`: the run rules of Telex
/// (doubling, cancellation, brackets), then the TelexEx w rules.
pub open spec fn telex_ex_spec(s: Seq<char>) -> Seq<char> {
    w_rules(runs_from(s, 0))
}

/// Apply Telex modifiers without Smart W (TelexEx): the same doubling,
/// cancellation and bracket rules as Telex, and a w that follows no a, o or u
/// stays w.
pub fn apply_modifiers_no_smart_w(input: &str) -> (r: String)
    ensures
        r@ == telex_ex_spec(input@),
{
    let cs = chars_of(input);
    let s0 = rewrite_runs(&cs);
    let s1 = replace_chars(&s0, &three('u', 'o', 'w'), &two('\u{01B0}', '\u{01A1}'));
    let s2 = replace_chars(&s1, &two('a', 'w'), &one('\u{0103}'));
    let s3 = replace_chars(&s2, &two('o', 'w'), &one('\u{01A1}'));
    let s4 = replace_chars(&s3, &two('u', 'w'), &one('\u{01B0}'));
    string_of(s4.as_slice())
}

/// Whether no character of `s` is a w.
pub open spec fn w_free(s: Seq<char>) -> bool {
    forall|k: int| 0 <= k < s.len() ==> s[k] != 'w'
}

proof fn lemma_run_piece_w_free(c: char, run: int)
    requires
        c != 'w',
    ensures
        w_free(run_piece(c, run)),
{
}

proof fn lemma_runs_w_free(cs: Seq<char>, i: int)
    requires
        w_free(cs),
    ensures
        w_free(runs_from(cs, i)),
    decreases cs.len() - i,
{
    if 0 <= i < cs.len() {
        let e = run_end(cs, i, cs[i]);
        lemma_run_end(cs, i, cs[i]);
        if e > i {
            lemma_runs_w_free(cs, e);
            lemma_run_piece_w_free(cs[i], e - i);
            let a = run_piece(cs[i], e - i);
            let b = runs_from(cs, e);
            assert forall|k: int| 0 <= k < (a + b).len() implies (a + b)[k] != 'w' by {
                if k < a.len() {
                    assert((a + b)[k] == a[k]);
                } else {
                    assert((a + b)[k] == b[k - a.len()]);
                }
            }
        }
    }
}

proof fn lemma_replace_w_free(s: Seq<char>, from: Seq<char>, to: Seq<char>)
    requires
        w_free(s),
        from.len() > 0,
        from.last() == 'w',
    ensures
        replace_all(s, from, to) == s,
    decreases s.len(),
{
    if s.len() >= from.len() {
        assert(s.take(from.len() as int)[from.len() - 1] != from[from.len() - 1]);
        lemma_replace_w_free(s.skip(1), from, to);
        assert(seq![s[0]] + s.skip(1) =~= s);
    }
}

proof fn lemma_resolve_w_free(cs: Seq<char>, i: int, acc: Seq<char>)
    requires
        w_free(cs),
        0 <= i <= cs.len(),
    ensures
        resolve_w(cs, i, acc) == acc + cs.skip(i),
    decreases cs.len() - i,
{
    if i < cs.len() {
        lemma_resolve_w_free(cs, i + 1, acc.push(cs[i]));
        assert(acc.push(cs[i]) + cs.skip(i + 1) =~= acc + cs.skip(i));
    } else {
        assert(acc + cs.skip(i) =~= acc);
    }
}

/// On a core with no w, TelexEx and Telex give the same result: the two
/// modes differ only in what they make of w.
pub proof fn law_telex_ex_agrees_without_w(s: Seq<char>)
    requires
        w_free(s),
    ensures
        telex_ex_spec(s) == telex_modifiers_spec(s),
{
    let r = runs_from(s, 0);
    lemma_runs_w_free(s, 0);
    lemma_replace_w_free(r, seq!['u', 'o', 'w'], seq!['\u{01B0}', '\u{01A1}']);
    lemma_replace_w_free(r, seq!['a', 'w'], seq!['\u{0103}']);
    lemma_replace_w_free(r, seq!['o', 'w'], seq!['\u{01A1}']);
    lemma_replace_w_free(r, seq!['u', 'w'], seq!['\u{01B0}']);
    lemma_resolve_w_free(r, 0, Seq::empty());
    assert(Seq::<char>::empty() + r.skip(0) =~= r);
}

} // verus!
