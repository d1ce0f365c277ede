//! Shorthand (auto-text) dictionary: an abbreviation expands to its text.
use vstd::prelude::*;
use crate::text::{
    chars_of, copy_string, find_char, lines_of, one, push_str, replace_all, replace_chars,
    split_lines, split_once, str_eq, string_of, strip_chars, strip_end, strip_start, sub_chars,
    trim, trim_chars, two, views,
};
use crate::text::{
    lemma_ascii_whitespace, lemma_line_scan_append, lemma_line_scan_no_newline,
    lemma_replace_absent, lemma_split_once_at, lemma_trim_id, line_scan, strip_cr, trim_end,
    trim_start,
};

verus! {

/// Lexicographic order on character sequences (code point by code point),
/// the order of `str`.
pub open spec fn lex_lt(a: Seq<char>, b: Seq<char>) -> bool
    decreases a.len(),
{
    if a.len() == 0 {
        b.len() > 0
    } else if b.len() == 0 {
        false
    } else if a[0] < b[0] {
        true
    } else if a[0] > b[0] {
        false
    } else {
        lex_lt(a.skip(1), b.skip(1))
    }
}

pub proof fn lemma_lex_irreflexive(a: Seq<char>)
    ensures
        !lex_lt(a, a),
    decreases a.len(),
{
    if a.len() > 0 {
        lemma_lex_irreflexive(a.skip(1));
    }
}

pub proof fn lemma_lex_total(a: Seq<char>, b: Seq<char>)
    ensures
        a != b ==> lex_lt(a, b) || lex_lt(b, a),
        !(lex_lt(a, b) && lex_lt(b, a)),
    decreases a.len(),
{
    if a.len() > 0 && b.len() > 0 && a[0] == b[0] {
        lemma_lex_total(a.skip(1), b.skip(1));
        if a.skip(1) == b.skip(1) {
            assert(a =~= seq![a[0]] + a.skip(1));
            assert(b =~= seq![b[0]] + b.skip(1));
        }
    }
    if a.len() == 0 && b.len() == 0 {
        assert(a =~= b);
    }
}

pub proof fn lemma_lex_transitive(a: Seq<char>, b: Seq<char>, c: Seq<char>)
    requires
        lex_lt(a, b),
        lex_lt(b, c),
    ensures
        lex_lt(a, c),
    decreases a.len(),
{
    if a.len() > 0 && b.len() > 0 && c.len() > 0 && a[0] == b[0] && b[0] == c[0] {
        lemma_lex_transitive(a.skip(1), b.skip(1), c.skip(1));
    }
}

/// Whether `a` sorts before `b`.
pub fn lex_less(a: &str, b: &str) -> (r: bool)
    ensures
        r == lex_lt(a@, b@),
{
    let va = chars_of(a);
    let vb = chars_of(b);
    let mut i: usize = 0;
    assert(va@.skip(0) == va@ && vb@.skip(0) == vb@);
    while i < va.len() && i < vb.len() && va[i] == vb[i]
        invariant
            i <= va.len(),
            i <= vb.len(),
            lex_lt(va@.skip(i as int), vb@.skip(i as int)) == lex_lt(va@, vb@),
        decreases va.len() - i,
    {
        assert(va@.skip(i as int).skip(1) == va@.skip(i + 1));
        assert(vb@.skip(i as int).skip(1) == vb@.skip(i + 1));
        i += 1;
    }
    if i == va.len() {
        i < vb.len()
    } else if i == vb.len() {
        false
    } else {
        va[i] < vb[i]
    }
}

/// The (abbreviation, expansion) pairs as character sequences.
pub open spec fn pairs_view(s: Seq<(String, String)>) -> Seq<(Seq<char>, Seq<char>)> {
    s.map_values(|p: (String, String)| (p.0@, p.1@))
}

/// The (abbreviation, expansion) pairs of string slices as character sequences.
pub open spec fn str_pairs_view(s: Seq<(&str, &str)>) -> Seq<(Seq<char>, Seq<char>)> {
    s.map_values(|p: (&str, &str)| (p.0@, p.1@))
}

/// The map that a list of pairs stands for.
pub open spec fn map_of(s: Seq<(Seq<char>, Seq<char>)>) -> Map<Seq<char>, Seq<char>>
    decreases s.len(),
{
    if s.len() == 0 {
        Map::empty()
    } else {
        map_of(s.drop_last()).insert(s.last().0, s.last().1)
    }
}

/// Keys strictly increasing.
pub open spec fn sorted_keys(s: Seq<(Seq<char>, Seq<char>)>) -> bool {
    forall|i: int, j: int| 0 <= i < j < s.len() ==> lex_lt(#[trigger] s[i].0, #[trigger] s[j].0)
}

/// Distinct keys.
pub open spec fn distinct_keys(s: Seq<(Seq<char>, Seq<char>)>) -> bool {
    forall|i: int, j: int| 0 <= i < s.len() && 0 <= j < s.len() && i != j ==> #[trigger] s[i].0
        != #[trigger] s[j].0
}

proof fn lemma_sorted_distinct(s: Seq<(Seq<char>, Seq<char>)>)
    requires
        sorted_keys(s),
    ensures
        distinct_keys(s),
{
    assert forall|i: int, j: int|
        0 <= i < s.len() && 0 <= j < s.len() && i != j implies #[trigger] s[i].0
        != #[trigger] s[j].0 by {
        if i < j {
            lemma_lex_irreflexive(s[i].0);
        } else {
            lemma_lex_irreflexive(s[j].0);
        }
    }
}

/// With distinct keys, the map holds exactly the listed pairs.
proof fn lemma_map_of(s: Seq<(Seq<char>, Seq<char>)>)
    requires
        distinct_keys(s),
    ensures
        forall|k: Seq<char>|
            #[trigger] map_of(s).contains_key(k) <==> exists|i: int|
                0 <= i < s.len() && #[trigger] s[i].0 == k,
        forall|i: int| 0 <= i < s.len() ==> #[trigger] map_of(s)[s[i].0] == s[i].1,
    decreases s.len(),
{
    if s.len() > 0 {
        let p = s.drop_last();
        assert(distinct_keys(p)) by {
            assert forall|i: int, j: int|
                0 <= i < p.len() && 0 <= j < p.len() && i != j implies #[trigger] p[i].0
                != #[trigger] p[j].0 by {
                assert(p[i] == s[i] && p[j] == s[j]);
            }
        }
        lemma_map_of(p);
        assert(map_of(s) == map_of(p).insert(s.last().0, s.last().1));
        assert forall|k: Seq<char>|
            #[trigger] map_of(s).contains_key(k) <==> exists|i: int|
                0 <= i < s.len() && #[trigger] s[i].0 == k by {
            if map_of(s).contains_key(k) {
                if k == s.last().0 {
                    assert(s[s.len() - 1].0 == k);
                } else {
                    assert(map_of(p).contains_key(k));
                    let i = choose|i: int| 0 <= i < p.len() && #[trigger] p[i].0 == k;
                    assert(s[i] == p[i]);
                }
            }
            if exists|i: int| 0 <= i < s.len() && #[trigger] s[i].0 == k {
                let i = choose|i: int| 0 <= i < s.len() && #[trigger] s[i].0 == k;
                if i < s.len() - 1 {
                    assert(p[i] == s[i]);
                }
            }
        }
        assert forall|i: int| 0 <= i < s.len() implies #[trigger] map_of(s)[s[i].0] == s[i].1 by {
            if i < s.len() - 1 {
                assert(p[i] == s[i]);
                assert(s[i].0 != s[s.len() - 1].0);
            }
        }
    }
}

/// Two lists with distinct keys and the same pairs (in any order) stand for
/// the same map.
proof fn lemma_map_of_ext(s: Seq<(Seq<char>, Seq<char>)>, m: Map<Seq<char>, Seq<char>>)
    requires
        distinct_keys(s),
        forall|k: Seq<char>|
            #[trigger] m.contains_key(k) <==> exists|i: int| 0 <= i < s.len() && #[trigger] s[i].0 == k,
        forall|i: int| 0 <= i < s.len() ==> #[trigger] m[s[i].0] == s[i].1,
    ensures
        map_of(s) == m,
{
    lemma_map_of(s);
    assert forall|k: Seq<char>| #[trigger] map_of(s).contains_key(k) implies map_of(s)[k] == m[k] by {
        let i = choose|i: int| 0 <= i < s.len() && #[trigger] s[i].0 == k;
    }
    assert(map_of(s) =~= m);
}

/// The built-in Vietnamese abbreviations.
pub open spec fn default_shorthands() -> Map<Seq<char>, Seq<char>> {
    Map::empty()
        .insert("dc"@, "được"@)
        .insert("kg"@, "không"@)
        .insert("ntn"@, "như thế nào"@)
        .insert("ns"@, "nói"@)
        .insert("nc"@, "nước"@)
        .insert("trc"@, "trước"@)
        .insert("ms"@, "mới"@)
        .insert("nma"@, "nhưng mà"@)
        .insert("bt"@, "bình thường"@)
        .insert("mk"@, "mình"@)
        .insert("bn"@, "bạn"@)
        .insert("cx"@, "cũng"@)
        .insert("ng"@, "người"@)
        .insert("gd"@, "gia đình"@)
        .insert("hk"@, "không"@)
        .insert("r"@, "rồi"@)
        .insert("vs"@, "với"@)
        .insert("vn"@, "Việt Nam"@)
        .insert("hn"@, "Hà Nội"@)
        .insert("sg"@, "Sài Gòn"@)
        .insert("tks"@, "cảm ơn"@)
        .insert("vd"@, "ví dụ"@)
        .insert("th"@, "thôi"@)
}

/// JSON string escaping of the exporter: backslash, double quote, line feed
/// and tab get a backslash.
pub open spec fn escape_json_spec(s: Seq<char>) -> Seq<char> {
    let s1 = replace_all(s, seq!['\\'], seq!['\\', '\\']);
    let s2 = replace_all(s1, seq!['"'], seq!['\\', '"']);
    let s3 = replace_all(s2, seq!['\n'], seq!['\\', 'n']);
    replace_all(s3, seq!['\t'], seq!['\\', 't'])
}

/// One exported JSON line: `  "key": "value"`, a comma unless it is the last
/// entry, and a line feed.
pub open spec fn json_line(k: Seq<char>, v: Seq<char>, last: bool) -> Seq<char> {
    seq![' ', ' ', '"'] + escape_json_spec(k) + seq!['"', ':', ' ', '"'] + escape_json_spec(v)
        + seq!['"'] + (if last {
        Seq::empty()
    } else {
        seq![',']
    }) + seq!['\n']
}

/// The lines of the first `n` entries.
pub open spec fn json_body(es: Seq<(Seq<char>, Seq<char>)>, n: nat) -> Seq<char>
    decreases n,
{
    if n == 0 || n > es.len() {
        Seq::empty()
    } else {
        json_body(es, (n - 1) as nat) + json_line(es[n - 1].0, es[n - 1].1, n == es.len())
    }
}

/// The JSON object that the entries are exported to.
pub open spec fn export_json_spec(es: Seq<(Seq<char>, Seq<char>)>) -> Seq<char> {
    seq!['{', '\n'] + json_body(es, es.len()) + seq!['}']
}

/// The entry that one line of a JSON object gives: the line trimmed and
/// without trailing commas, split at its first ':', each side trimmed and
/// without surrounding double quotes; both sides must be non-empty.
pub open spec fn json_entry(line: Seq<char>) -> Option<(Seq<char>, Seq<char>)> {
    let l = strip_end(trim(line), ',');
    if l.len() == 0 {
        None
    } else {
        match split_once(l, ':') {
            Some((a, b)) => {
                let k = strip_end(strip_start(trim(a), '"'), '"');
                let v = strip_end(strip_start(trim(b), '"'), '"');
                if k.len() > 0 && v.len() > 0 {
                    Some((k, v))
                } else {
                    None
                }
            },
            None => None,
        }
    }
}

/// The map after adding the entries of the lines, in order.
pub open spec fn add_json_entries(m: Map<Seq<char>, Seq<char>>, ls: Seq<Seq<char>>) -> Map<
    Seq<char>,
    Seq<char>,
>
    decreases ls.len(),
{
    if ls.len() == 0 {
        m
    } else {
        let m1 = add_json_entries(m, ls.drop_last());
        match json_entry(ls.last()) {
            Some((k, v)) => m1.insert(k, v),
            None => m1,
        }
    }
}

/// What importing a JSON text gives: `None` unless the trimmed text starts
/// with '{' and ends with '}'; else the entries of the lines between them.
pub open spec fn import_json_spec(json: Seq<char>) -> Option<Map<Seq<char>, Seq<char>>> {
    let t = trim(json);
    if t.len() > 0 && t[0] == '{' && t.last() == '}' {
        Some(add_json_entries(Map::empty(), lines_of(t.subrange(1, t.len() - 1))))
    } else {
        None
    }
}

/// The header line of the exported CSV.
pub open spec fn csv_header() -> Seq<char> {
    "abbreviation\texpansion\n"@
}

/// One CSV line per entry: key, tab, value, line feed.
pub open spec fn csv_body(es: Seq<(Seq<char>, Seq<char>)>) -> Seq<char>
    decreases es.len(),
{
    if es.len() == 0 {
        Seq::empty()
    } else {
        csv_body(es.drop_last()) + es.last().0 + seq!['\t'] + es.last().1 + seq!['\n']
    }
}

/// The entry of one CSV line: split at its first tab, with a non-empty key.
pub open spec fn csv_entry(line: Seq<char>) -> Option<(Seq<char>, Seq<char>)> {
    match split_once(line, '\t') {
        Some((a, b)) => if a.len() > 0 {
            Some((a, b))
        } else {
            None
        },
        None => None,
    }
}

/// The map after adding the entries of the CSV lines, in order.
pub open spec fn add_csv_entries(m: Map<Seq<char>, Seq<char>>, ls: Seq<Seq<char>>) -> Map<
    Seq<char>,
    Seq<char>,
>
    decreases ls.len(),
{
    if ls.len() == 0 {
        m
    } else {
        let m1 = add_csv_entries(m, ls.drop_last());
        match csv_entry(ls.last()) {
            Some((k, v)) => m1.insert(k, v),
            None => m1,
        }
    }
}

/// What importing a CSV text gives: the entries of every line but the first.
pub open spec fn import_csv_spec(csv: Seq<char>) -> Map<Seq<char>, Seq<char>> {
    let ls = lines_of(csv);
    add_csv_entries(
        Map::empty(),
        if ls.len() == 0 {
            ls
        } else {
            ls.drop_first()
        },
    )
}

/// Escapes special characters for a JSON string.
fn escape_json(s: &String) -> (r: String)
    ensures
        r@ == escape_json_spec(s@),
{
    let cs = chars_of(s.as_str());
    let s1 = replace_chars(&cs, one('\\').as_slice(), two('\\', '\\').as_slice());
    let s2 = replace_chars(&s1, one('"').as_slice(), two('\\', '"').as_slice());
    let s3 = replace_chars(&s2, one('\n').as_slice(), two('\\', 'n').as_slice());
    let s4 = replace_chars(&s3, one('\t').as_slice(), two('\\', 't').as_slice());
    string_of(s4.as_slice())
}

/// The entry of one JSON line.
fn json_entry_of(line: &Vec<char>) -> (r: Option<(String, String)>)
    ensures
        match json_entry(line@) {
            Some((k, v)) => r matches Some(p) && p.0@ == k && p.1@ == v,
            None => r is None,
        },
{
    let t = trim_chars(line.as_slice());
    let l = strip_chars(t.as_slice(), ',', false, true);
    if l.len() == 0 {
        return None;
    }
    match find_char(l.as_slice(), ':') {
        Some(i) => {
            let a = sub_chars(l.as_slice(), 0, i);
            let b = sub_chars(l.as_slice(), i + 1, l.len());
            assert(a@ =~= l@.take(i as int));
            assert(b@ =~= l@.skip(i + 1));
            let ta = trim_chars(a.as_slice());
            let tb = trim_chars(b.as_slice());
            let k = strip_chars(ta.as_slice(), '"', true, true);
            let v = strip_chars(tb.as_slice(), '"', true, true);
            if k.len() > 0 && v.len() > 0 {
                Some((string_of(k.as_slice()), string_of(v.as_slice())))
            } else {
                None
            }
        },
        None => None,
    }
}

/// The entry of one CSV line.
fn csv_entry_of(line: &Vec<char>) -> (r: Option<(String, String)>)
    ensures
        match csv_entry(line@) {
            Some((k, v)) => r matches Some(p) && p.0@ == k && p.1@ == v,
            None => r is None,
        },
{
    match find_char(line.as_slice(), '\t') {
        Some(i) => {
            if i > 0 {
                let a = sub_chars(line.as_slice(), 0, i);
                let b = sub_chars(line.as_slice(), i + 1, line.len());
                assert(a@ =~= line@.take(i as int));
                assert(b@ =~= line@.skip(i + 1));
                Some((string_of(a.as_slice()), string_of(b.as_slice())))
            } else {
                None
            }
        },
        None => None,
    }
}

/// The shorthand dictionary.
#[derive(Debug)]
pub struct ShorthandDict {
    entries: Vec<(String, String)>,
}

impl View for ShorthandDict {
    type V = Map<Seq<char>, Seq<char>>;

    closed spec fn view(&self) -> Map<Seq<char>, Seq<char>> {
        map_of(pairs_view(self.entries@))
    }
}

impl Default for ShorthandDict {
    fn default() -> (r: Self)
        ensures
            r@ == Map::<Seq<char>, Seq<char>>::empty(),
    {
        Self::new()
    }
}

impl Clone for ShorthandDict {
    fn clone(&self) -> (r: Self)
        ensures
            r@ == self@,
    {
        proof {
            use_type_invariant(self);
        }
        ShorthandDict { entries: self.owned_entries() }
    }
}

impl ShorthandDict {
    /// Entries kept sorted by abbreviation, hence with distinct abbreviations.
    #[verifier::type_invariant]
    spec fn wf(self) -> bool {
        sorted_keys(pairs_view(self.entries@))
    }

    /// The entries, sorted by abbreviation.
    pub closed spec fn sorted_entries(&self) -> Seq<(Seq<char>, Seq<char>)> {
        pairs_view(self.entries@)
    }

    /// Create a dictionary holding the built-in Vietnamese abbreviations.
    pub fn with_defaults() -> (r: Self)
        ensures
            r@ == default_shorthands(),
    {
        let mut dict = Self::new();
        dict.add("dc", "được");
        dict.add("kg", "không");
        dict.add("ntn", "như thế nào");
        dict.add("ns", "nói");
        dict.add("nc", "nước");
        dict.add("trc", "trước");
        dict.add("ms", "mới");
        dict.add("nma", "nhưng mà");
        dict.add("bt", "bình thường");
        dict.add("mk", "mình");
        dict.add("bn", "bạn");
        dict.add("cx", "cũng");
        dict.add("ng", "người");
        dict.add("gd", "gia đình");
        dict.add("hk", "không");
        dict.add("r", "rồi");
        dict.add("vs", "với");
        dict.add("vn", "Việt Nam");
        dict.add("hn", "Hà Nội");
        dict.add("sg", "Sài Gòn");
        dict.add("tks", "cảm ơn");
        dict.add("vd", "ví dụ");
        dict.add("th", "thôi");
        dict
    }

    /// Create an empty dictionary.
    pub fn new() -> (r: Self)
        ensures
            r@ == Map::<Seq<char>, Seq<char>>::empty(),
    {
        let r = ShorthandDict { entries: Vec::new() };
        assert(pairs_view(r.entries@) =~= Seq::empty());
        r
    }

    /// Add or update an entry.
    pub fn add(&mut self, abbreviation: &str, expansion: &str)
        ensures
            final(self)@ == old(self)@.insert(abbreviation@, expansion@),
    {
        proof {
            use_type_invariant(&*self);
        }
        let mut entries: Vec<(String, String)> = Vec::new();
        std::mem::swap(&mut entries, &mut self.entries);
        let ghost old_s = pairs_view(entries@);
        proof {
            lemma_sorted_distinct(old_s);
            lemma_map_of(old_s);
        }
        let mut p: usize = 0;
        while p < entries.len() && lex_less(entries[p].0.as_str(), abbreviation)
            invariant
                p <= entries.len(),
                entries@ == old(self).entries@,
                old_s == pairs_view(entries@),
                sorted_keys(old_s),
                forall|j: int| 0 <= j < p ==> lex_lt(#[trigger] old_s[j].0, abbreviation@),
            decreases entries.len() - p,
        {
            p += 1;
        }
        let k = abbreviation.to_owned();
        let v = expansion.to_owned();
        if p < entries.len() && str_eq(entries[p].0.as_str(), abbreviation) {
            let key = copy_string(&entries[p].0);
            entries.set(p, (key, v));
            let ghost s = pairs_view(entries@);
            assert(s == old_s.update(p as int, (abbreviation@, expansion@)));
            assert(sorted_keys(s)) by {
                assert forall|i: int, j: int| 0 <= i < j < s.len() implies lex_lt(
                    #[trigger] s[i].0,
                    #[trigger] s[j].0,
                ) by {
                    assert(s[i].0 == old_s[i].0);
                    assert(s[j].0 == old_s[j].0);
                }
            }
            proof {
                lemma_sorted_distinct(s);
                lemma_sorted_distinct(old_s);
                lemma_map_of(old_s);
                let m = map_of(old_s).insert(abbreviation@, expansion@);
                assert forall|key: Seq<char>|
                    #[trigger] m.contains_key(key) <==> exists|i: int|
                        0 <= i < s.len() && #[trigger] s[i].0 == key by {
                    if m.contains_key(key) {
                        if key == abbreviation@ {
                            assert(s[p as int].0 == key);
                        } else {
                            assert(map_of(old_s).contains_key(key));
                            let i = choose|i: int| 0 <= i < old_s.len() && #[trigger] old_s[i].0 == key;
                            assert(s[i].0 == old_s[i].0);
                        }
                    }
                    if exists|i: int| 0 <= i < s.len() && #[trigger] s[i].0 == key {
                        let i = choose|i: int| 0 <= i < s.len() && #[trigger] s[i].0 == key;
                        assert(s[i].0 == old_s[i].0);
                    }
                }
                assert forall|i: int| 0 <= i < s.len() implies #[trigger] m[s[i].0] == s[i].1 by {
                    if i != p {
                        assert(s[i] == old_s[i]);
                        assert(old_s[i].0 != old_s[p as int].0);
                    }
                }
                lemma_map_of_ext(s, m);
            }
        } else {
            entries.insert(p, (k, v));
            let ghost s = pairs_view(entries@);
            assert(s == old_s.insert(p as int, (abbreviation@, expansion@)));
            proof {
                if p < old_s.len() {
                    lemma_lex_total(old_s[p as int].0, abbreviation@);
                }
            }
            assert(sorted_keys(s)) by {
                assert forall|i: int, j: int| 0 <= i < j < s.len() implies lex_lt(
                    #[trigger] s[i].0,
                    #[trigger] s[j].0,
                ) by {
                    if j < p {
                        assert(s[i] == old_s[i] && s[j] == old_s[j]);
                    } else if j == p {
                        assert(s[i] == old_s[i]);
                    } else if i == p {
                        assert(s[j] == old_s[j - 1]);
                        if j - 1 > p {
                            lemma_lex_transitive(abbreviation@, old_s[p as int].0, old_s[j - 1].0);
                        }
                    } else if i < p {
                        assert(s[i] == old_s[i] && s[j] == old_s[j - 1]);
                    } else {
                        assert(s[i] == old_s[i - 1] && s[j] == old_s[j - 1]);
                    }
                }
            }
            proof {
                lemma_sorted_distinct(s);
                lemma_sorted_distinct(old_s);
                lemma_map_of(old_s);
                lemma_lex_irreflexive(abbreviation@);
                assert forall|j: int| 0 <= j < old_s.len() implies #[trigger] old_s[j].0 != abbreviation@ by {
                    if j > p {
                        lemma_lex_transitive(abbreviation@, old_s[p as int].0, old_s[j].0);
                        lemma_lex_irreflexive(old_s[j].0);
                    }
                    if j < p {
                        lemma_lex_irreflexive(old_s[j].0);
                    }
                }
                let m = map_of(old_s).insert(abbreviation@, expansion@);
                assert forall|key: Seq<char>|
                    #[trigger] m.contains_key(key) <==> exists|i: int|
                        0 <= i < s.len() && #[trigger] s[i].0 == key by {
                    if m.contains_key(key) && key != abbreviation@ {
                        assert(map_of(old_s).contains_key(key));
                        let i = choose|i: int| 0 <= i < old_s.len() && #[trigger] old_s[i].0 == key;
                        if i < p {
                            assert(s[i] == old_s[i]);
                        } else {
                            assert(s[i + 1] == old_s[i]);
                        }
                    }
                    if key == abbreviation@ {
                        assert(s[p as int].0 == key);
                    }
                    if exists|i: int| 0 <= i < s.len() && #[trigger] s[i].0 == key {
                        let i = choose|i: int| 0 <= i < s.len() && #[trigger] s[i].0 == key;
                        if i < p {
                            assert(s[i] == old_s[i]);
                        } else if i > p {
                            assert(s[i] == old_s[i - 1]);
                        }
                    }
                }
                assert forall|i: int| 0 <= i < s.len() implies #[trigger] m[s[i].0] == s[i].1 by {
                    if i < p {
                        assert(s[i] == old_s[i]);
                    } else if i > p {
                        assert(s[i] == old_s[i - 1]);
                    }
                }
                lemma_map_of_ext(s, m);
            }
        }
        self.entries = entries;
    }

    /// Remove an entry; returns whether it was present.
    pub fn remove(&mut self, abbreviation: &str) -> (r: bool)
        ensures
            final(self)@ == old(self)@.remove(abbreviation@),
            r == old(self)@.contains_key(abbreviation@),
    {
        proof {
            use_type_invariant(&*self);
        }
        let mut entries: Vec<(String, String)> = Vec::new();
        std::mem::swap(&mut entries, &mut self.entries);
        let ghost old_s = pairs_view(entries@);
        proof {
            lemma_sorted_distinct(old_s);
            lemma_map_of(old_s);
        }
        let mut i: usize = 0;
        while i < entries.len()
            invariant
                i <= entries.len(),
                entries@ == old(self).entries@,
                old_s == pairs_view(entries@),
                sorted_keys(old_s),
                forall|j: int| 0 <= j < i ==> #[trigger] old_s[j].0 != abbreviation@,
            decreases entries.len() - i,
        {
            if str_eq(entries[i].0.as_str(), abbreviation) {
                entries.remove(i);
                let ghost s = pairs_view(entries@);
                assert(s == old_s.remove(i as int));
                assert(sorted_keys(s)) by {
                    assert forall|a: int, b: int| 0 <= a < b < s.len() implies lex_lt(
                        #[trigger] s[a].0,
                        #[trigger] s[b].0,
                    ) by {
                        if b < i {
                            assert(s[a] == old_s[a] && s[b] == old_s[b]);
                            assert(lex_lt(old_s[a].0, old_s[b].0));
                        } else if a < i {
                            assert(s[a] == old_s[a] && s[b] == old_s[b + 1]);
                            assert(lex_lt(old_s[a].0, old_s[b + 1].0));
                        } else {
                            assert(s[a] == old_s[a + 1] && s[b] == old_s[b + 1]);
                            assert(lex_lt(old_s[a + 1].0, old_s[b + 1].0));
                        }
                    }
                }
                proof {
                    lemma_sorted_distinct(s);
                    lemma_sorted_distinct(old_s);
                    lemma_map_of(old_s);
                    let m = map_of(old_s).remove(abbreviation@);
                    assert forall|key: Seq<char>|
                        #[trigger] m.contains_key(key) <==> exists|k: int|
                            0 <= k < s.len() && #[trigger] s[k].0 == key by {
                        if m.contains_key(key) {
                            assert(map_of(old_s).contains_key(key));
                            let k = choose|k: int| 0 <= k < old_s.len() && #[trigger] old_s[k].0 == key;
                            if k < i {
                                assert(s[k] == old_s[k]);
                            } else {
                                assert(k != i);
                                assert(s[k - 1] == old_s[k]);
                            }
                        }
                        if exists|k: int| 0 <= k < s.len() && #[trigger] s[k].0 == key {
                            let k = choose|k: int| 0 <= k < s.len() && #[trigger] s[k].0 == key;
                            if k < i {
                                assert(s[k] == old_s[k]);
                                assert(old_s[k].0 != old_s[i as int].0);
                            } else {
                                assert(s[k] == old_s[k + 1]);
                                assert(old_s[k + 1].0 != old_s[i as int].0);
                            }
                        }
                    }
                    assert forall|k: int| 0 <= k < s.len() implies #[trigger] m[s[k].0] == s[k].1 by {
                        if k < i {
                            assert(s[k] == old_s[k]);
                            assert(old_s[k].0 != old_s[i as int].0);
                        } else {
                            assert(s[k] == old_s[k + 1]);
                            assert(old_s[k + 1].0 != old_s[i as int].0);
                        }
                    }
                    lemma_map_of_ext(s, m);
                    assert(old_s[i as int].0 == abbreviation@);
                }
                self.entries = entries;
                return true;
            }
            i += 1;
        }
        proof {
            lemma_sorted_distinct(old_s);
            lemma_map_of(old_s);
            if map_of(old_s).contains_key(abbreviation@) {
                let j = choose|j: int| 0 <= j < old_s.len() && #[trigger] old_s[j].0 == abbreviation@;
            }
        }
        assert(map_of(old_s).remove(abbreviation@) =~= map_of(old_s));
        self.entries = entries;
        false
    }

    /// Look up an abbreviation.
    pub fn lookup(&self, abbreviation: &str) -> (r: Option<&str>)
        ensures
            r is Some <==> self@.contains_key(abbreviation@),
            r matches Some(v) ==> v@ == self@[abbreviation@],
    {
        proof {
            use_type_invariant(self);
        }
        let ghost s = pairs_view(self.entries@);
        proof {
            lemma_sorted_distinct(s);
            lemma_map_of(s);
        }
        let mut i: usize = 0;
        while i < self.entries.len()
            invariant
                i <= self.entries.len(),
                s == pairs_view(self.entries@),
                sorted_keys(s),
                forall|j: int| 0 <= j < i ==> #[trigger] s[j].0 != abbreviation@,
            decreases self.entries.len() - i,
        {
            if str_eq(self.entries[i].0.as_str(), abbreviation) {
                proof {
                    lemma_sorted_distinct(s);
                    lemma_map_of(s);
                    assert(s[i as int].0 == abbreviation@);
                }
                return Some(self.entries[i].1.as_str());
            }
            i += 1;
        }
        proof {
            if self@.contains_key(abbreviation@) {
                let j = choose|j: int| 0 <= j < s.len() && #[trigger] s[j].0 == abbreviation@;
            }
        }
        None
    }

    /// All entries as (abbreviation, expansion), sorted by abbreviation.
    pub fn entries(&self) -> (r: Vec<(&str, &str)>)
        ensures
            str_pairs_view(r@) == self.sorted_entries(),
            sorted_keys(str_pairs_view(r@)),
            map_of(str_pairs_view(r@)) == self@,
    {
        proof {
            use_type_invariant(self);
        }
        let mut r: Vec<(&str, &str)> = Vec::new();
        let mut i: usize = 0;
        while i < self.entries.len()
            invariant
                i <= self.entries.len(),
                str_pairs_view(r@) == pairs_view(self.entries@).take(i as int),
            decreases self.entries.len() - i,
        {
            let ghost before = r@;
            r.push((self.entries[i].0.as_str(), self.entries[i].1.as_str()));
            assert(str_pairs_view(r@) =~= pairs_view(self.entries@).take(i + 1)) by {
                assert(str_pairs_view(r@) =~= str_pairs_view(before).push(
                    pairs_view(self.entries@)[i as int],
                ));
            }
            i += 1;
        }
        assert(pairs_view(self.entries@).take(self.entries.len() as int) =~= pairs_view(self.entries@));
        r
    }

    /// Copies of the entries, sorted by abbreviation.
    fn owned_entries(&self) -> (r: Vec<(String, String)>)
        ensures
            pairs_view(r@) == self.sorted_entries(),
            sorted_keys(pairs_view(r@)),
            map_of(pairs_view(r@)) == self@,
    {
        proof {
            use_type_invariant(self);
        }
        let mut r: Vec<(String, String)> = Vec::new();
        let mut i: usize = 0;
        while i < self.entries.len()
            invariant
                i <= self.entries.len(),
                r@.len() == i,
                pairs_view(r@) == pairs_view(self.entries@).take(i as int),
            decreases self.entries.len() - i,
        {
            let k = copy_string(&self.entries[i].0);
            let v = copy_string(&self.entries[i].1);
            let ghost before = r@;
            r.push((k, v));
            assert forall|j: int| 0 <= j < i + 1 implies #[trigger] pairs_view(r@)[j] == pairs_view(self.entries@)[j] by {
                if j < i {
                    assert(r@[j] == before[j]);
                    assert(pairs_view(before)[j] == pairs_view(self.entries@).take(i as int)[j]);
                }
            }
            assert(pairs_view(r@) =~= pairs_view(self.entries@).take(i as int + 1));
            i += 1;
        }
        assert(pairs_view(self.entries@).take(self.entries.len() as int) =~= pairs_view(self.entries@));
        r
    }

    /// Export to a JSON object, one entry per line, sorted by abbreviation.
    pub fn export_json(&self) -> (r: String)
        ensures
            r@ == export_json_spec(self.sorted_entries()),
    {
        let es = self.owned_entries();
        let ghost pv = pairs_view(es@);
        let mut json = String::new();
        json.push('{');
        json.push('\n');
        let mut i: usize = 0;
        while i < es.len()
            invariant
                i <= es.len(),
                pv == pairs_view(es@),
                pv == self.sorted_entries(),
                json@ == seq!['{', '\n'] + json_body(pv, i as nat),
            decreases es.len() - i,
        {
            let ek = escape_json(&es[i].0);
            let ev = escape_json(&es[i].1);
            let mut line = String::new();
            line.push(' ');
            line.push(' ');
            line.push('"');
            push_str(&mut line, ek.as_str());
            line.push('"');
            line.push(':');
            line.push(' ');
            line.push('"');
            push_str(&mut line, ev.as_str());
            line.push('"');
            if i < es.len() - 1 {
                line.push(',');
            }
            line.push('\n');
            assert(line@ =~= json_line(pv[i as int].0, pv[i as int].1, i + 1 == pv.len()));
            let ghost prev = json@;
            push_str(&mut json, line.as_str());
            assert(json@ =~= seq!['{', '\n'] + json_body(pv, (i + 1) as nat));
            i += 1;
        }
        json.push('}');
        json
    }

    /// Import from a JSON object. Lines that are not `"key": "value"` pairs
    /// with both sides non-empty are skipped.
    pub fn import_json(json: &str) -> (r: Result<Self, String>)
        ensures
            match r {
                Ok(d) => import_json_spec(json@) == Some(d@),
                Err(e) => import_json_spec(json@) is None && e@ == "Invalid JSON: must be an object"@,
            },
    {
        let mut dict = Self::new();
        let cs = chars_of(json);
        let t = trim_chars(cs.as_slice());
        if !(t.len() > 0 && t[0] == '{' && t[t.len() - 1] == '}') {
            return Err("Invalid JSON: must be an object".to_owned());
        }
        let inner = sub_chars(t.as_slice(), 1, t.len() - 1);
        let lines = split_lines(inner.as_slice());
        let ghost ls = views(lines@);
        let mut i: usize = 0;
        assert(ls.take(0) =~= Seq::<Seq<char>>::empty());
        while i < lines.len()
            invariant
                i <= lines.len(),
                ls == views(lines@),
                dict@ == add_json_entries(Map::empty(), ls.take(i as int)),
            decreases lines.len() - i,
        {
            assert(ls.take(i + 1).drop_last() =~= ls.take(i as int));
            match json_entry_of(&lines[i]) {
                Some(p) => {
                    dict.add(p.0.as_str(), p.1.as_str());
                },
                None => {},
            }
            i += 1;
        }
        assert(ls.take(lines.len() as int) =~= ls);
        Ok(dict)
    }

    /// Export to tab-separated text: a header line, then one line per entry,
    /// sorted by abbreviation.
    pub fn export_csv(&self) -> (r: String)
        ensures
            r@ == csv_header() + csv_body(self.sorted_entries()),
    {
        let es = self.owned_entries();
        let ghost pv = pairs_view(es@);
        let mut csv = String::new();
        push_str(&mut csv, "abbreviation\texpansion\n");
        let mut i: usize = 0;
        assert(pv.take(0) =~= Seq::<(Seq<char>, Seq<char>)>::empty());
        while i < es.len()
            invariant
                i <= es.len(),
                pv == pairs_view(es@),
                csv@ == csv_header() + csv_body(pv.take(i as int)),
            decreases es.len() - i,
        {
            assert(pv.take(i + 1).drop_last() =~= pv.take(i as int));
            push_str(&mut csv, es[i].0.as_str());
            csv.push('\t');
            push_str(&mut csv, es[i].1.as_str());
            csv.push('\n');
            assert(csv@ =~= csv_header() + csv_body(pv.take(i + 1)));
            i += 1;
        }
        assert(pv.take(es.len() as int) =~= pv);
        csv
    }

    /// Import from tab-separated text; the first line is a header. Lines
    /// without a tab, or with nothing before it, are skipped.
    pub fn import_csv(csv: &str) -> (r: Result<Self, String>)
        ensures
            r matches Ok(d) && d@ == import_csv_spec(csv@),
    {
        let mut dict = Self::new();
        let cs = chars_of(csv);
        let lines = split_lines(cs.as_slice());
        let ghost all = views(lines@);
        let ghost ls = if all.len() == 0 {
            all
        } else {
            all.drop_first()
        };
        if lines.len() == 0 {
            assert(ls =~= Seq::<Seq<char>>::empty());
            return Ok(dict);
        }
        let mut i: usize = 1;
        assert(ls.take(0) =~= Seq::<Seq<char>>::empty());
        while i < lines.len()
            invariant
                1 <= i <= lines.len(),
                all == views(lines@),
                ls == all.drop_first(),
                dict@ == add_csv_entries(Map::empty(), ls.take(i - 1)),
            decreases lines.len() - i,
        {
            assert(ls.take(i as int).drop_last() =~= ls.take(i - 1));
            assert(ls.take(i as int).last() == all[i as int]);
            match csv_entry_of(&lines[i]) {
                Some(p) => {
                    dict.add(p.0.as_str(), p.1.as_str());
                },
                None => {},
            }
            i += 1;
        }
        assert(ls.take(lines.len() - 1) =~= ls);
        Ok(dict)
    }

    /// Number of entries.
    pub fn len(&self) -> (r: usize)
        ensures
            r == self@.dom().len(),
    {
        proof {
            use_type_invariant(self);
            self.lemma_len();
        }
        self.entries.len()
    }

    proof fn lemma_len(&self)
        requires
            sorted_keys(pairs_view(self.entries@)),
        ensures
            self@.dom().len() == self.entries@.len(),
            self@.dom().finite(),
    {
        let s = pairs_view(self.entries@);
        lemma_sorted_distinct(s);
        lemma_dom_len(s);
    }

    /// Whether the dictionary is empty.
    pub fn is_empty(&self) -> (r: bool)
        ensures
            r == (self@.dom().len() == 0),
    {
        proof {
            use_type_invariant(self);
            self.lemma_len();
        }
        self.entries.len() == 0
    }
}

proof fn lemma_dom_len(s: Seq<(Seq<char>, Seq<char>)>)
    requires
        distinct_keys(s),
    ensures
        map_of(s).dom().len() == s.len(),
        map_of(s).dom().finite(),
    decreases s.len(),
{
    if s.len() > 0 {
        let p = s.drop_last();
        assert(distinct_keys(p)) by {
            assert forall|i: int, j: int|
                0 <= i < p.len() && 0 <= j < p.len() && i != j implies #[trigger] p[i].0
                != #[trigger] p[j].0 by {
                assert(p[i] == s[i] && p[j] == s[j]);
            }
        }
        lemma_dom_len(p);
        lemma_map_of(p);
        assert(!map_of(p).contains_key(s.last().0)) by {
            if map_of(p).contains_key(s.last().0) {
                let i = choose|i: int| 0 <= i < p.len() && #[trigger] p[i].0 == s.last().0;
                assert(p[i] == s[i]);
            }
        }
    }
}

/// Text that the JSON exporter writes as it is: no backslash, double quote,
/// line feed or tab.
pub open spec fn json_safe(s: Seq<char>) -> bool {
    !s.contains('\\') && !s.contains('"') && !s.contains('\n') && !s.contains('\t')
}

/// An entry that survives a JSON export and import: both sides non-empty
/// and safe, and no ':' in the abbreviation.
pub open spec fn json_plain(k: Seq<char>, v: Seq<char>) -> bool {
    k.len() > 0 && v.len() > 0 && json_safe(k) && json_safe(v) && !k.contains(':')
}

proof fn lemma_escape_safe(s: Seq<char>)
    requires
        json_safe(s),
    ensures
        escape_json_spec(s) == s,
{
    lemma_replace_absent(s, '\\', seq!['\\', '\\']);
    lemma_replace_absent(s, '"', seq!['\\', '"']);
    lemma_replace_absent(s, '\n', seq!['\\', 'n']);
    lemma_replace_absent(s, '\t', seq!['\\', 't']);
}

/// A quoted non-empty text without quotes, trimmed and unquoted.
proof fn lemma_unquote(x: Seq<char>)
    requires
        x.len() > 0,
        !x.contains('"'),
    ensures
        strip_end(strip_start(trim(seq!['"'] + x + seq!['"']), '"'), '"') == x,
{
    let q = seq!['"'] + x + seq!['"'];
    let xq = x + seq!['"'];
    lemma_ascii_whitespace('"');
    assert(q[0] == '"');
    assert(q.last() == '"');
    lemma_trim_id(q);
    assert(q.drop_first() =~= xq);
    assert(x[0] != '"') by {
        assert(x.contains(x[0]));
    }
    assert(xq[0] == x[0]);
    assert(strip_start(xq, '"') == xq);
    assert(strip_start(q, '"') == strip_start(xq, '"'));
    assert(xq.drop_last() =~= x);
    assert(xq.last() == '"');
    assert(x.last() != '"') by {
        assert(x.contains(x[x.len() - 1]));
    }
    assert(strip_end(x, '"') == x);
    assert(strip_end(xq, '"') == strip_end(x, '"'));
}

/// The text of an exported JSON line, without its line feed.
pub open spec fn json_content(k: Seq<char>, v: Seq<char>, last: bool) -> Seq<char> {
    seq![' ', ' '] + json_pair(k, v) + (if last {
        Seq::empty()
    } else {
        seq![',']
    })
}

/// `"key": "value"`.
pub open spec fn json_pair(k: Seq<char>, v: Seq<char>) -> Seq<char> {
    seq!['"'] + k + seq!['"', ':', ' ', '"'] + v + seq!['"']
}

proof fn lemma_json_content_trim(k: Seq<char>, v: Seq<char>, last: bool)
    ensures
        strip_end(trim(json_content(k, v, last)), ',') == json_pair(k, v),
{
    let p = json_pair(k, v);
    let c1 = p + (if last {
        Seq::empty()
    } else {
        seq![',']
    });
    let c = json_content(k, v, last);
    lemma_ascii_whitespace(' ');
    lemma_ascii_whitespace('"');
    lemma_ascii_whitespace(',');
    assert(c =~= seq![' ', ' '] + c1);
    assert(c.drop_first() =~= seq![' '] + c1);
    assert((seq![' '] + c1).drop_first() =~= c1);
    assert(c[0] == ' ');
    assert((seq![' '] + c1)[0] == ' ');
    assert(p[0] == '"');
    assert(c1[0] == '"');
    assert(trim_start(c1) == c1);
    assert(trim_start(seq![' '] + c1) == trim_start(c1));
    assert(trim_start(c) == trim_start(c.drop_first()));
    assert(p.last() == '"');
    if !last {
        assert(c1.last() == ',');
        assert(c1.drop_last() =~= p);
    } else {
        assert(c1 =~= p);
    }
    assert(trim_end(c1) == c1);
    assert(strip_end(p, ',') == p);
}

proof fn lemma_json_pair_split(k: Seq<char>, v: Seq<char>)
    requires
        !k.contains(':'),
    ensures
        split_once(json_pair(k, v), ':') == Some(
            (seq!['"'] + k + seq!['"'], seq![' '] + (seq!['"'] + v + seq!['"'])),
        ),
{
    let c0 = json_pair(k, v);
    let i: int = k.len() as int + 2;
    assert(c0[i] == ':');
    assert forall|j: int| 0 <= j < i implies c0[j] != ':' by {
        if 1 <= j <= k.len() {
            assert(c0[j] == k[j - 1]);
            assert(k.contains(k[j - 1]));
        }
    }
    lemma_split_once_at(c0, ':', i);
    assert(c0.take(i) =~= seq!['"'] + k + seq!['"']);
    assert(c0.skip(i + 1) =~= seq![' '] + (seq!['"'] + v + seq!['"']));
}

proof fn lemma_json_entry_content(k: Seq<char>, v: Seq<char>, last: bool)
    requires
        json_plain(k, v),
    ensures
        json_entry(json_content(k, v, last)) == Some((k, v)),
{
    lemma_json_content_trim(k, v, last);
    lemma_json_pair_split(k, v);
    let qv = seq!['"'] + v + seq!['"'];
    let b = seq![' '] + qv;
    lemma_ascii_whitespace(' ');
    lemma_ascii_whitespace('"');
    assert(b.drop_first() =~= qv);
    assert(b[0] == ' ');
    assert(trim_start(b) == trim_start(qv));
    assert(qv[0] == '"' && qv.last() == '"');
    assert(trim_start(qv) == qv);
    assert(b.len() > 0 && b.last() == '"');
    assert(trim(b) == trim_end(qv));
    lemma_trim_id(qv);
    assert(trim(b) == trim(qv));
    lemma_unquote(k);
    lemma_unquote(v);
    assert(json_pair(k, v).len() > 0);
}

proof fn lemma_line_of(content: Seq<char>)
    requires
        !content.contains('\n'),
        content.len() > 0,
        content.last() != '\r',
    ensures
        line_scan(content.push('\n')) == (seq![content], Seq::<char>::empty()),
{
    lemma_line_scan_no_newline(content);
    assert(content.push('\n').drop_last() =~= content);
    assert(strip_cr(content) == content);
    assert(Seq::<Seq<char>>::empty().push(content) =~= seq![content]);
}

proof fn lemma_json_content_line(k: Seq<char>, v: Seq<char>, last: bool)
    requires
        json_plain(k, v),
    ensures
        json_line(k, v, last) == json_content(k, v, last).push('\n'),
        line_scan(json_line(k, v, last)) == (seq![json_content(k, v, last)], Seq::<char>::empty()),
{
    lemma_escape_safe(k);
    lemma_escape_safe(v);
    let content = json_content(k, v, last);
    assert(json_line(k, v, last) =~= content.push('\n'));
    assert(!content.contains('\n')) by {
        if content.contains('\n') {
            let j = choose|j: int| 0 <= j < content.len() && content[j] == '\n';
            if 3 <= j < 3 + k.len() {
                assert(content[j] == k[j - 3]);
                assert(k.contains(k[j - 3]));
            } else if 7 + k.len() <= j < 7 + k.len() + v.len() {
                assert(content[j] == v[j - 7 - k.len()]);
                assert(v.contains(v[j - 7 - k.len()]));
            }
        }
    }
    assert(content.last() == '"' || content.last() == ',');
    lemma_line_of(content);
}

proof fn lemma_json_lines_base()
    ensures
        line_scan(seq!['\n']) == (seq![Seq::<char>::empty()], Seq::<char>::empty()),
        add_json_entries(Map::empty(), seq![Seq::<char>::empty()]) == Map::<Seq<char>, Seq<char>>::empty(),
{
    assert(seq!['\n'].drop_last() =~= Seq::<char>::empty());
    assert(line_scan(Seq::<char>::empty()) == (Seq::<Seq<char>>::empty(), Seq::<char>::empty()));
    assert(strip_cr(Seq::<char>::empty()) =~= Seq::<char>::empty());
    assert(Seq::<Seq<char>>::empty().push(Seq::<char>::empty()) =~= seq![Seq::<char>::empty()]);
    lemma_ascii_whitespace(' ');
    assert(trim(Seq::<char>::empty()) == Seq::<char>::empty());
    assert(json_entry(Seq::<char>::empty()) is None);
    assert(seq![Seq::<char>::empty()].drop_last() =~= Seq::<Seq<char>>::empty());
    assert(seq![Seq::<char>::empty()].last() == Seq::<char>::empty());
    assert(add_json_entries(Map::empty(), Seq::<Seq<char>>::empty()) == Map::<
        Seq<char>,
        Seq<char>,
    >::empty());
}

/// Reading the line feed and the JSON lines of the first `n` entries gives
/// an empty line, then one line per entry whose pairs make `map_of` of them.
proof fn lemma_json_lines(es: Seq<(Seq<char>, Seq<char>)>, n: nat)
    requires
        n <= es.len(),
        forall|i: int| 0 <= i < es.len() ==> json_plain(#[trigger] es[i].0, es[i].1),
    ensures
        line_scan(seq!['\n'] + json_body(es, n)).1.len() == 0,
        add_json_entries(Map::empty(), line_scan(seq!['\n'] + json_body(es, n)).0) == map_of(
            es.take(n as int),
        ),
    decreases n,
{
    if n == 0 {
        assert(seq!['\n'] + json_body(es, 0) =~= seq!['\n']);
        lemma_json_lines_base();
        assert(es.take(0) =~= Seq::<(Seq<char>, Seq<char>)>::empty());
    } else {
        lemma_json_lines(es, (n - 1) as nat);
        let a = seq!['\n'] + json_body(es, (n - 1) as nat);
        let k = es[n - 1].0;
        let v = es[n - 1].1;
        let last = n == es.len();
        assert(json_plain(k, v));
        let content = json_content(k, v, last);
        lemma_json_content_line(k, v, last);
        assert(seq!['\n'] + json_body(es, n) =~= a + json_line(k, v, last));
        lemma_line_scan_append(a, json_line(k, v, last));
        let ls = line_scan(a).0;
        assert(line_scan(a + json_line(k, v, last)).0 =~= ls.push(content));
        assert(ls.push(content).drop_last() =~= ls);
        lemma_json_entry_content(k, v, last);
        assert(es.take(n as int).drop_last() =~= es.take(n - 1));
    }
}

/// Exporting entries to JSON and importing the text gives back the map of
/// the entries, when every entry is plain (see `json_plain`).
pub proof fn law_json_roundtrip(es: Seq<(Seq<char>, Seq<char>)>)
    requires
        forall|i: int| 0 <= i < es.len() ==> json_plain(#[trigger] es[i].0, es[i].1),
    ensures
        import_json_spec(export_json_spec(es)) == Some(map_of(es)),
{
    let body = json_body(es, es.len());
    let j = export_json_spec(es);
    lemma_ascii_whitespace('{');
    lemma_ascii_whitespace('}');
    lemma_trim_id(j);
    assert(j.subrange(1, j.len() - 1) =~= seq!['\n'] + body);
    lemma_json_lines(es, es.len());
    assert(es.take(es.len() as int) =~= es);
}

/// An entry that survives a CSV export and import: a non-empty abbreviation
/// without tab or line feed, and an expansion without line feed that does not
/// end with a carriage return.
pub open spec fn csv_plain(k: Seq<char>, v: Seq<char>) -> bool {
    &&& k.len() > 0
    &&& !k.contains('\t')
    &&& !k.contains('\n')
    &&& !v.contains('\n')
    &&& !(v.len() > 0 && v.last() == '\r')
}

proof fn lemma_csv_header()
    ensures
        line_scan(csv_header()) == (seq![csv_header().drop_last()], Seq::<char>::empty()),
{
    reveal_strlit("abbreviation\texpansion\n");
    let h0 = csv_header().drop_last();
    assert(csv_header() =~= h0.push('\n'));
    assert(!h0.contains('\n')) by {
        if h0.contains('\n') {
            let j = choose|j: int| 0 <= j < h0.len() && h0[j] == '\n';
            assert(h0[j] == csv_header()[j]);
        }
    }
    assert(h0.last() == 'n');
    lemma_line_of(h0);
}

proof fn lemma_csv_entry_line(k: Seq<char>, v: Seq<char>)
    requires
        csv_plain(k, v),
    ensures
        line_scan(k + seq!['\t'] + v + seq!['\n']) == (seq![k + seq!['\t'] + v], Seq::<char>::empty()),
        csv_entry(k + seq!['\t'] + v) == Some((k, v)),
{
    let content = k + seq!['\t'] + v;
    assert(k + seq!['\t'] + v + seq!['\n'] =~= content.push('\n'));
    assert(!content.contains('\n')) by {
        if content.contains('\n') {
            let j = choose|j: int| 0 <= j < content.len() && content[j] == '\n';
            if j < k.len() {
                assert(k.contains(k[j]));
            } else if j > k.len() {
                assert(content[j] == v[j - k.len() - 1]);
                assert(v.contains(v[j - k.len() - 1]));
            }
        }
    }
    if v.len() > 0 {
        assert(content.last() == v.last());
    } else {
        assert(content.last() == '\t');
    }
    lemma_line_of(content);
    let i = k.len() as int;
    assert forall|j: int| 0 <= j < i implies content[j] != '\t' by {
        assert(content[j] == k[j]);
        assert(k.contains(k[j]));
    }
    lemma_split_once_at(content, '\t', i);
    assert(content.take(i) =~= k);
    assert(content.skip(i + 1) =~= v);
}

proof fn lemma_csv_lines(es: Seq<(Seq<char>, Seq<char>)>)
    requires
        forall|i: int| 0 <= i < es.len() ==> csv_plain(#[trigger] es[i].0, es[i].1),
    ensures
        line_scan(csv_header() + csv_body(es)).1.len() == 0,
        line_scan(csv_header() + csv_body(es)).0.len() > 0,
        add_csv_entries(Map::empty(), line_scan(csv_header() + csv_body(es)).0.drop_first())
            == map_of(es),
    decreases es.len(),
{
    if es.len() == 0 {
        assert(csv_header() + csv_body(es) =~= csv_header());
        lemma_csv_header();
        assert(seq![csv_header().drop_last()].drop_first() =~= Seq::<Seq<char>>::empty());
    } else {
        let p = es.drop_last();
        assert forall|i: int| 0 <= i < p.len() implies csv_plain(#[trigger] p[i].0, p[i].1) by {
            assert(p[i] == es[i]);
        }
        lemma_csv_lines(p);
        let k = es.last().0;
        let v = es.last().1;
        assert(csv_plain(k, v)) by {
            assert(es[es.len() - 1] == es.last());
        }
        let a = csv_header() + csv_body(p);
        let line = k + seq!['\t'] + v + seq!['\n'];
        assert(csv_header() + csv_body(es) =~= a + line);
        lemma_csv_entry_line(k, v);
        lemma_line_scan_append(a, line);
        let ls = line_scan(a).0;
        let content = k + seq!['\t'] + v;
        assert(line_scan(a + line).0 =~= ls.push(content));
        assert(ls.push(content).drop_first() =~= ls.drop_first().push(content));
        assert(ls.drop_first().push(content).drop_last() =~= ls.drop_first());
    }
}

/// Exporting entries to CSV and importing the text gives back the map of the
/// entries, when every entry is plain (see `csv_plain`).
pub proof fn law_csv_roundtrip(es: Seq<(Seq<char>, Seq<char>)>)
    requires
        forall|i: int| 0 <= i < es.len() ==> csv_plain(#[trigger] es[i].0, es[i].1),
    ensures
        import_csv_spec(csv_header() + csv_body(es)) == map_of(es),
{
    lemma_csv_lines(es);
}

proof fn lemma_sorted_prefix(s: Seq<(Seq<char>, Seq<char>)>)
    requires
        sorted_keys(s),
        s.len() > 0,
    ensures
        sorted_keys(s.drop_last()),
        !map_of(s.drop_last()).contains_key(s.last().0),
        map_of(s.drop_last()) == map_of(s).remove(s.last().0),
{
    let p = s.drop_last();
    assert forall|i: int, j: int| 0 <= i < j < p.len() implies lex_lt(
        #[trigger] p[i].0,
        #[trigger] p[j].0,
    ) by {
        assert(p[i] == s[i] && p[j] == s[j]);
    }
    lemma_sorted_distinct(s);
    lemma_sorted_distinct(p);
    lemma_map_of(p);
    if map_of(p).contains_key(s.last().0) {
        let i = choose|i: int| 0 <= i < p.len() && #[trigger] p[i].0 == s.last().0;
        assert(p[i] == s[i]);
        assert(s[i].0 != s[s.len() - 1].0);
    }
    assert(map_of(p) =~= map_of(s).remove(s.last().0));
}

/// Two key-sorted lists of entries that stand for the same map are the same
/// list: the sorted entries of a dictionary are determined by its map.
pub proof fn law_sorted_entries_determined(a: Seq<(Seq<char>, Seq<char>)>, b: Seq<(Seq<char>, Seq<char>)>)
    requires
        sorted_keys(a),
        sorted_keys(b),
        map_of(a) == map_of(b),
    ensures
        a == b,
    decreases a.len() + b.len(),
{
    lemma_sorted_distinct(a);
    lemma_sorted_distinct(b);
    lemma_map_of(a);
    lemma_map_of(b);
    if a.len() == 0 || b.len() == 0 {
        if b.len() > 0 {
            assert(map_of(b).contains_key(b[b.len() - 1].0));
        }
        if a.len() > 0 {
            assert(map_of(a).contains_key(a[a.len() - 1].0));
        }
        assert(a =~= b);
    } else {
        let ka = a.last().0;
        let kb = b.last().0;
        assert(a[a.len() - 1] == a.last());
        assert(b[b.len() - 1] == b.last());
        assert(map_of(a).contains_key(ka));
        assert(map_of(b).contains_key(kb));
        let j = choose|j: int| 0 <= j < b.len() && #[trigger] b[j].0 == ka;
        let i = choose|i: int| 0 <= i < a.len() && #[trigger] a[i].0 == kb;
        if ka != kb {
            assert(j < b.len() - 1);
            assert(i < a.len() - 1);
            assert(lex_lt(b[j].0, b[b.len() - 1].0));
            assert(lex_lt(a[i].0, a[a.len() - 1].0));
            lemma_lex_total(ka, kb);
        }
        assert(map_of(a)[a[a.len() - 1].0] == a[a.len() - 1].1);
        assert(map_of(b)[b[b.len() - 1].0] == b[b.len() - 1].1);
        assert(a.last() == b.last());
        lemma_sorted_prefix(a);
        lemma_sorted_prefix(b);
        law_sorted_entries_determined(a.drop_last(), b.drop_last());
        assert(a =~= a.drop_last().push(a.last()));
        assert(b =~= b.drop_last().push(b.last()));
    }
}

/// A dictionary exported to JSON and imported again lists the same entries,
/// when every entry is plain (see `json_plain`): `es` are the sorted entries
/// exported, `es2` those of the imported dictionary.
pub proof fn law_json_roundtrip_entries(es: Seq<(Seq<char>, Seq<char>)>, es2: Seq<(Seq<char>, Seq<char>)>)
    requires
        sorted_keys(es),
        sorted_keys(es2),
        forall|i: int| 0 <= i < es.len() ==> json_plain(#[trigger] es[i].0, es[i].1),
        import_json_spec(export_json_spec(es)) == Some(map_of(es2)),
    ensures
        es2 == es,
{
    law_json_roundtrip(es);
    law_sorted_entries_determined(es2, es);
}

/// A dictionary exported to CSV and imported again lists the same entries,
/// when every entry is plain (see `csv_plain`): `es` are the sorted entries
/// exported, `es2` those of the imported dictionary.
pub proof fn law_csv_roundtrip_entries(es: Seq<(Seq<char>, Seq<char>)>, es2: Seq<(Seq<char>, Seq<char>)>)
    requires
        sorted_keys(es),
        sorted_keys(es2),
        forall|i: int| 0 <= i < es.len() ==> csv_plain(#[trigger] es[i].0, es[i].1),
        import_csv_spec(csv_header() + csv_body(es)) == map_of(es2),
    ensures
        es2 == es,
{
    law_csv_roundtrip(es);
    law_sorted_entries_determined(es2, es);
}

impl ShorthandDict {
    /// The entries stand for the dictionary's map.
    pub proof fn lemma_entries_view(&self)
        ensures
            map_of(self.sorted_entries()) == self@,
    {
    }
}

/// After adding an abbreviation, looking it up gives its expansion; other
/// abbreviations are unchanged.
pub proof fn law_add_then_lookup(m: Map<Seq<char>, Seq<char>>, k: Seq<char>, v: Seq<char>, other: Seq<char>)
    requires
        other != k,
    ensures
        m.insert(k, v).contains_key(k),
        m.insert(k, v)[k] == v,
        m.insert(k, v).contains_key(other) == m.contains_key(other),
        m.contains_key(other) ==> m.insert(k, v)[other] == m[other],
{
}

/// After removing an abbreviation it is not found, and removing it again
/// changes nothing; adding then removing is the same as removing.
pub proof fn law_remove_then_absent(m: Map<Seq<char>, Seq<char>>, k: Seq<char>, v: Seq<char>)
    ensures
        !m.remove(k).contains_key(k),
        m.remove(k).remove(k) == m.remove(k),
        m.insert(k, v).remove(k) == m.remove(k),
{
    assert(m.remove(k).remove(k) =~= m.remove(k));
    assert(m.insert(k, v).remove(k) =~= m.remove(k));
}

} // verus!
