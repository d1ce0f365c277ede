//! Word dictionary: a trie of lowercased words, used to tell real words
//! from misspellings.
use vstd::prelude::*;
use std::collections::HashMap;
use vstd::std_specs::iter::IteratorSpec;
use crate::shorthand::lex_lt;
use crate::text::{
    chars_of, chars_to_lowercase, copy_string, extend_chars, push_str, str_eq, str_lowercase, str_to_lowercase,
    trim, trim_chars, string_of,
};

verus! {

broadcast use vstd::std_specs::hash::group_hash_axioms;

/// A trie node. Children are keyed by the code point of their character.
#[derive(Debug)]
pub struct TrieNode {
    pub children: HashMap<u32, TrieNode>,
    pub is_end_of_word: bool,
}

/// Whether the word `w` is stored below `node`.
pub open spec fn trie_has(node: TrieNode, w: Seq<char>) -> bool
    decreases w.len(),
{
    if w.len() == 0 {
        node.is_end_of_word
    } else {
        let k = w[0] as u32;
        node.children@.contains_key(k) && trie_has(node.children@[k], w.skip(1))
    }
}

/// The words stored below a node.
pub open spec fn trie_words(node: TrieNode) -> Set<Seq<char>> {
    Set::new(|w: Seq<char>| trie_has(node, w))
}

proof fn lemma_empty_node_has_nothing(node: TrieNode, w: Seq<char>)
    requires
        node.children@ == Map::<u32, TrieNode>::empty(),
        !node.is_end_of_word,
    ensures
        !trie_has(node, w),
{
}

proof fn lemma_char_code_injective(a: char, b: char)
    ensures
        (a as u32 == b as u32) ==> a == b,
{
}

impl Default for TrieNode {
    fn default() -> (r: Self)
        ensures
            r.children@ == Map::<u32, TrieNode>::empty(),
            !r.is_end_of_word,
    {
        TrieNode::new()
    }
}

impl TrieNode {
    /// A node with no children that ends no word.
    pub fn new() -> (r: Self)
        ensures
            r.children@ == Map::<u32, TrieNode>::empty(),
            !r.is_end_of_word,
            forall|w: Seq<char>| !trie_has(r, w),
    {
        let r = TrieNode { children: HashMap::new(), is_end_of_word: false };
        proof {
            assert forall|w: Seq<char>| !trie_has(r, w) by {
                lemma_empty_node_has_nothing(r, w);
            }
        }
        r
    }

    /// Store `w[i..]` below this node.
    fn insert_from(&mut self, w: &Vec<char>, i: usize)
        requires
            i <= w.len(),
        ensures
            forall|v: Seq<char>|
                #[trigger] trie_has(*final(self), v) == (trie_has(*old(self), v) || v == w@.skip(
                    i as int,
                )),
        decreases w.len() - i,
    {
        if i == w.len() {
            self.is_end_of_word = true;
            proof {
                assert forall|v: Seq<char>|
                    #[trigger] trie_has(*self, v) == (trie_has(*old(self), v) || v == w@.skip(
                        i as int,
                    )) by {
                    if v.len() > 0 {
                        assert(v != w@.skip(i as int));
                    } else {
                        assert(v =~= w@.skip(i as int));
                    }
                }
            }
            return ;
        }
        let k = w[i] as u32;
        let mut child = match self.children.remove(&k) {
            Some(c) => c,
            None => TrieNode::new(),
        };
        let ghost child_old = child;
        child.insert_from(w, i + 1);
        self.children.insert(k, child);
        proof {
            assert forall|v: Seq<char>|
                #[trigger] trie_has(*self, v) == (trie_has(*old(self), v) || v == w@.skip(
                    i as int,
                )) by {
                if v.len() == 0 {
                    assert(v != w@.skip(i as int));
                } else {
                    let kv = v[0] as u32;
                    lemma_char_code_injective(v[0], w@[i as int]);
                    if kv == k {
                        assert(trie_has(*self, v) == trie_has(child, v.skip(1)));
                        if !old(self).children@.contains_key(k) {
                            assert(!trie_has(child_old, v.skip(1)));
                        }
                        assert(w@.skip(i as int).skip(1) =~= w@.skip(i + 1));
                        if v.skip(1) == w@.skip(i + 1) {
                            assert(v[0] == w@[i as int]);
                            assert(v =~= seq![v[0]] + v.skip(1));
                            assert(w@.skip(i as int) =~= seq![w@[i as int]] + w@.skip(i + 1));
                        }
                        if v == w@.skip(i as int) {
                            assert(v.skip(1) =~= w@.skip(i + 1));
                        }
                    } else {
                        assert(v != w@.skip(i as int));
                    }
                }
            }
        }
    }
}

/// Whether `k` is the code of a character (not a surrogate, at most U+10FFFF).
pub open spec fn is_char_code(k: int) -> bool {
    (0 <= k < 0xD800) || (0xE000 <= k < 0x110000)
}

/// `char::from_u32`: the character with code `k`, or `None` when `k` is a
/// surrogate or above U+10FFFF, as its documentation states.
#[verifier::external_body]
fn char_from_code(k: u32) -> (r: Option<char>)
    ensures
        r == (if is_char_code(k as int) {
            Some(k as char)
        } else {
            None
        }),
{
    char::from_u32(k)
}

/// The node reached from `node` by following the characters of `p`.
pub open spec fn node_at(node: TrieNode, p: Seq<char>) -> Option<TrieNode>
    decreases p.len(),
{
    if p.len() == 0 {
        Some(node)
    } else {
        let k = p[0] as u32;
        if node.children@.contains_key(k) {
            node_at(node.children@[k], p.skip(1))
        } else {
            None
        }
    }
}

/// Each word with `p` in front.
pub open spec fn prefixed(ws: Seq<Seq<char>>, p: Seq<char>) -> Seq<Seq<char>> {
    ws.map_values(|w: Seq<char>| p + w)
}

/// The words stored below a node in order: the empty word first when the
/// node ends a word, then the words of the children by increasing character.
pub open spec fn words_in_order(node: TrieNode) -> Seq<Seq<char>>
    decreases node, 0x110001int,
{
    (if node.is_end_of_word {
        seq![Seq::<char>::empty()]
    } else {
        Seq::empty()
    }) + children_words(node, 0)
}

/// The words of the children with character code `k` or above, in order.
pub open spec fn children_words(node: TrieNode, k: int) -> Seq<Seq<char>>
    decreases node, 0x110000 - k,
{
    if k < 0 || k >= 0x110000 {
        Seq::empty()
    } else {
        let rest = children_words(node, k + 1);
        if is_char_code(k) && node.children@.contains_key(k as u32) {
            prefixed(words_in_order(node.children@[k as u32]), seq![k as char]) + rest
        } else {
            rest
        }
    }
}

/// At most the first `n` elements.
pub open spec fn limited(s: Seq<Seq<char>>, n: int) -> Seq<Seq<char>> {
    if s.len() <= n {
        s
    } else if n <= 0 {
        Seq::empty()
    } else {
        s.take(n)
    }
}

/// The completions of `prefix`: the first five stored words that start with
/// it, in order.
pub open spec fn completions(root: TrieNode, prefix: Seq<char>) -> Seq<Seq<char>> {
    match node_at(root, prefix) {
        Some(n) => limited(prefixed(words_in_order(n), prefix), 5),
        None => Seq::empty(),
    }
}

/// The views of a sequence of strings.
pub open spec fn strings_view(v: Seq<String>) -> Seq<Seq<char>> {
    v.map_values(|s: String| s@)
}

/// Whether `x` is among the first `n` keys.
pub open spec fn seen_before(keys: Seq<&u32>, n: int, x: u32) -> bool {
    exists|j: int| 0 <= j < n && *keys[j] == x
}

/// The keys of a node's children, in increasing order.
fn sorted_child_keys(node: &TrieNode) -> (r: Vec<u32>)
    ensures
        forall|i: int, j: int| 0 <= i < j < r@.len() ==> r@[i] < r@[j],
        forall|i: int| 0 <= i < r@.len() ==> node.children@.contains_key(#[trigger] r@[i]),
        forall|k: u32| node.children@.contains_key(k) ==> r@.contains(k),
{
    let mut r: Vec<u32> = Vec::new();
    let ghost keys = node.children.keys().remaining();
    proof {
        assert(keys.unref().to_set() == node.children@.dom());
    }
    for kr in it: node.children.keys()
        invariant
            it.seq() == keys,
            keys.unref().to_set() == node.children@.dom(),
            keys.no_duplicates(),
            forall|i: int, j: int| 0 <= i < j < r@.len() ==> r@[i] < r@[j],
            forall|i: int| 0 <= i < r@.len() ==> node.children@.contains_key(#[trigger] r@[i]),
            forall|j: int| 0 <= j < it.index() ==> r@.contains(*keys[j]),
            forall|i: int| 0 <= i < r@.len() ==> #[trigger] seen_before(keys, it.index() as int, r@[i]),
    {
        let k = *kr;
        let mut p: usize = 0;
        while p < r.len() && r[p] < k
            invariant
                p <= r.len(),
                forall|i: int| 0 <= i < p ==> r@[i] < k,
            decreases r.len() - p,
        {
            p += 1;
        }
        let ghost before = r@;
        let ghost idx = it.index();
        assert(k == *keys[idx]);
        assert(!before.contains(k)) by {
            if before.contains(k) {
                let i = choose|i: int| 0 <= i < before.len() && before[i] == k;
                assert(seen_before(keys, idx as int, before[i]));
                let j = choose|j: int| 0 <= j < idx && *keys[j] == before[i];
                assert(keys[j] == keys[idx]);
            }
        }
        assert(node.children@.contains_key(k)) by {
            assert(keys.unref().contains(k)) by {
                assert(keys.unref()[idx] == k);
            }
        }
        r.insert(p, k);
        proof {
            assert(r@ == before.insert(p as int, k));
            assert forall|i: int, j: int| 0 <= i < j < r@.len() implies r@[i] < r@[j] by {
                if p < before.len() {
                    assert(before[p as int] != k);
                }
            }
            assert forall|x: u32| before.contains(x) implies r@.contains(x) by {
                let i = choose|i: int| 0 <= i < before.len() && before[i] == x;
                if i < p {
                    assert(r@[i] == x);
                } else {
                    assert(r@[i + 1] == x);
                }
            }
            assert(r@[p as int] == k);
            assert forall|i: int| 0 <= i < r@.len() implies #[trigger] seen_before(keys, idx + 1, r@[i]) by {
                if i == p {
                    assert(*keys[idx as int] == r@[i]);
                } else if i < p {
                    assert(r@[i] == before[i]);
                    assert(seen_before(keys, idx as int, before[i]));
                } else {
                    assert(r@[i] == before[i - 1]);
                    assert(seen_before(keys, idx as int, before[i - 1]));
                }
            }
        }
    }
    r
}

/// The words of the children with keys `ks[i..]`, key by key.
pub open spec fn keyed_words(node: TrieNode, ks: Seq<u32>, i: int) -> Seq<Seq<char>>
    decreases ks.len() - i,
{
    if i < 0 || i >= ks.len() {
        Seq::empty()
    } else {
        let k = ks[i];
        (if is_char_code(k as int) {
            prefixed(words_in_order(node.children@[k]), seq![k as char])
        } else {
            Seq::empty()
        }) + keyed_words(node, ks, i + 1)
    }
}

proof fn lemma_keyed_words_high(node: TrieNode, ks: Seq<u32>, j: int)
    requires
        0 <= j <= ks.len(),
        forall|i: int| j <= i < ks.len() ==> ks[i] >= 0x110000,
    ensures
        keyed_words(node, ks, j) == Seq::<Seq<char>>::empty(),
    decreases ks.len() - j,
{
    if j < ks.len() {
        lemma_keyed_words_high(node, ks, j + 1);
        assert(!is_char_code(ks[j] as int));
        assert(Seq::<Seq<char>>::empty() + Seq::<Seq<char>>::empty() =~= Seq::<Seq<char>>::empty());
    }
}

/// Walking the keys in increasing order gives the children's words in order.
proof fn lemma_children_words_keys(node: TrieNode, ks: Seq<u32>, k: int, j: int)
    requires
        forall|a: int, b: int| 0 <= a < b < ks.len() ==> ks[a] < ks[b],
        forall|a: int| 0 <= a < ks.len() ==> node.children@.contains_key(#[trigger] ks[a]),
        forall|x: u32| node.children@.contains_key(x) ==> ks.contains(x),
        0 <= k <= 0x110000,
        0 <= j <= ks.len(),
        forall|a: int| 0 <= a < j ==> ks[a] < k,
        j < ks.len() ==> ks[j] >= k,
    ensures
        children_words(node, k) == keyed_words(node, ks, j),
    decreases 0x110000 - k,
{
    if k == 0x110000 {
        assert forall|i: int| j <= i < ks.len() implies ks[i] >= 0x110000 by {
            if i > j {
                assert(ks[j] < ks[i]);
            }
        }
        lemma_keyed_words_high(node, ks, j);
    } else if j < ks.len() && ks[j] == k {
        assert forall|a: int| 0 <= a < j + 1 implies ks[a] < k + 1 by {
            if a < j {
                assert(ks[a] < k);
            }
        }
        if j + 1 < ks.len() {
            assert(ks[j] < ks[j + 1]);
        }
        lemma_children_words_keys(node, ks, k + 1, j + 1);
        assert(node.children@.contains_key(k as u32));
    } else {
        assert(!node.children@.contains_key(k as u32)) by {
            if node.children@.contains_key(k as u32) {
                assert(ks.contains(k as u32));
                let i = choose|i: int| 0 <= i < ks.len() && ks[i] == k as u32;
                if i < j {
                    assert(ks[i] < k);
                } else if i > j {
                    assert(ks[j] < ks[i]);
                }
            }
        }
        lemma_children_words_keys(node, ks, k + 1, j);
    }
}

proof fn lemma_limited_append(a: Seq<Seq<char>>, b: Seq<Seq<char>>, n: int)
    requires
        n >= 0,
    ensures
        limited(a, n) + limited(b, n - limited(a, n).len()) == limited(a + b, n),
        limited(a, n).len() <= n,
        limited(a, n).len() == n ==> limited(a + b, n) == limited(a, n),
{
    if a.len() <= n {
        if b.len() <= n - a.len() {
        } else if n - a.len() <= 0 {
            assert(a + b.take(0) =~= (a + b).take(n));
        } else {
            assert(a + b.take(n - a.len()) =~= (a + b).take(n));
        }
    } else {
        if n > 0 {
            assert(a.take(n) =~= (a + b).take(n));
        }
        assert(a.take(n) + Seq::<Seq<char>>::empty() =~= a.take(n));
    }
}

proof fn lemma_prefixed_append(a: Seq<Seq<char>>, b: Seq<Seq<char>>, p: Seq<char>)
    ensures
        prefixed(a + b, p) == prefixed(a, p) + prefixed(b, p),
{
    assert(prefixed(a + b, p) =~= prefixed(a, p) + prefixed(b, p));
}

proof fn lemma_prefixed_twice(w: Seq<Seq<char>>, q: Seq<char>, p: Seq<char>)
    ensures
        prefixed(prefixed(w, q), p) == prefixed(w, p + q),
{
    assert forall|i: int| 0 <= i < w.len() implies #[trigger] prefixed(prefixed(w, q), p)[i] == prefixed(w, p + q)[i] by {
        assert(p + (q + w[i]) =~= (p + q) + w[i]);
    }
    assert(prefixed(prefixed(w, q), p) =~= prefixed(w, p + q));
}

/// Appends to `results` the words below `node`, in order and with `prefix`
/// in front, until there are five results.
fn collect_words(node: &TrieNode, prefix: &Vec<char>, results: &mut Vec<String>)
    requires
        old(results)@.len() <= 5,
    ensures
        strings_view(final(results)@) == strings_view(old(results)@) + limited(
            prefixed(words_in_order(*node), prefix@),
            5 - old(results)@.len(),
        ),
    decreases node,
{
    let ghost base = strings_view(results@);
    let ghost n: int = 5 - results@.len();
    let ghost all = prefixed(words_in_order(*node), prefix@);
    if results.len() >= 5 {
        assert(base + limited(all, n) =~= base);
        return ;
    }
    let ghost own: Seq<Seq<char>> = if node.is_end_of_word {
        seq![Seq::<char>::empty()]
    } else {
        Seq::empty()
    };
    if node.is_end_of_word {
        results.push(string_of(prefix.as_slice()));
    }
    let keys = sorted_child_keys(node);
    proof {
        lemma_children_words_keys(*node, keys@, 0, 0);
        lemma_prefixed_append(own, keyed_words(*node, keys@, 0), prefix@);
        assert(prefixed(own, prefix@) =~= (if node.is_end_of_word {
            seq![prefix@ + Seq::<char>::empty()]
        } else {
            Seq::empty()
        }));
        assert(prefix@ + Seq::<char>::empty() =~= prefix@);
        assert(strings_view(results@) =~= base + limited(prefixed(own, prefix@), n));
    }
    let ghost mut done = prefixed(own, prefix@);
    let mut i: usize = 0;
    while i < keys.len()
        invariant_except_break
            i <= keys.len(),
            forall|a: int, b: int| 0 <= a < b < keys@.len() ==> keys@[a] < keys@[b],
            forall|a: int| 0 <= a < keys@.len() ==> node.children@.contains_key(#[trigger] keys@[a]),
            0 < n <= 5,
            base.len() + n == 5,
            all == prefixed(words_in_order(*node), prefix@),
            all == done + prefixed(keyed_words(*node, keys@, i as int), prefix@),
            strings_view(results@) == base + limited(done, n),
            results@.len() <= 5,
        ensures
            strings_view(results@) == base + limited(all, n),
        decreases keys.len() - i,
    {
        let k = keys[i];
        let ghost piece: Seq<Seq<char>> = if is_char_code(k as int) {
            prefixed(words_in_order(node.children@[k]), seq![k as char])
        } else {
            Seq::empty()
        };
        proof {
            assert(keyed_words(*node, keys@, i as int) == piece + keyed_words(*node, keys@, i + 1));
            lemma_prefixed_append(piece, keyed_words(*node, keys@, i + 1), prefix@);
            lemma_limited_append(done, prefixed(piece, prefix@), n);
        }
        match char_from_code(k) {
            Some(c) => {
                let child = node.children.get(&k).unwrap();
                let mut p = Vec::new();
                extend_chars(&mut p, prefix.as_slice());
                p.push(c);
                assert(p@ =~= prefix@ + seq![c]);
                proof {
                    lemma_prefixed_twice(words_in_order(*child), seq![c], prefix@);
                    assert(strings_view(results@).len() == results@.len());
                    assert(limited(done, n).len() == results@.len() - base.len());
                }
                collect_words(child, &p, results);
            },
            None => {
                assert(prefixed(piece, prefix@) =~= Seq::<Seq<char>>::empty());
                assert(limited(prefixed(piece, prefix@), n - limited(done, n).len()) =~= Seq::<Seq<char>>::empty());
            },
        }
        proof {
            assert((done + prefixed(piece, prefix@)) + prefixed(keyed_words(*node, keys@, i + 1), prefix@)
                =~= done + (prefixed(piece, prefix@) + prefixed(keyed_words(*node, keys@, i + 1), prefix@)));
            done = done + prefixed(piece, prefix@);
        }
        if results.len() >= 5 {
            proof {
                lemma_limited_append(done, prefixed(keyed_words(*node, keys@, i + 1), prefix@), n);
            }
            break;
        }
        i += 1;
    }
    proof {
        if i == keys.len() {
            assert(keyed_words(*node, keys@, i as int) =~= Seq::<Seq<char>>::empty());
            assert(done + Seq::<Seq<char>>::empty() =~= done);
        }
    }
}

proof fn lemma_words_in_order_stored(node: TrieNode)
    ensures
        forall|i: int| 0 <= i < words_in_order(node).len() ==> trie_has(node, #[trigger] words_in_order(node)[i]),
    decreases node, 0x110001int,
{
    lemma_children_words_stored(node, 0);
    let own: Seq<Seq<char>> = if node.is_end_of_word {
        seq![Seq::<char>::empty()]
    } else {
        Seq::empty()
    };
    let cw = children_words(node, 0);
    assert forall|i: int| 0 <= i < words_in_order(node).len() implies trie_has(node, #[trigger] words_in_order(node)[i]) by {
        if i < own.len() {
            assert(words_in_order(node)[i] == Seq::<char>::empty());
        } else {
            assert(words_in_order(node)[i] == cw[i - own.len()]);
        }
    }
}

proof fn lemma_children_words_stored(node: TrieNode, k: int)
    ensures
        forall|i: int| 0 <= i < children_words(node, k).len() ==> trie_has(node, #[trigger] children_words(node, k)[i]),
    decreases node, 0x110000 - k,
{
    if 0 <= k < 0x110000 {
        lemma_children_words_stored(node, k + 1);
        let rest = children_words(node, k + 1);
        if is_char_code(k) && node.children@.contains_key(k as u32) {
            let child = node.children@[k as u32];
            lemma_words_in_order_stored(child);
            let c = k as char;
            let first = prefixed(words_in_order(child), seq![c]);
            assert forall|i: int| 0 <= i < children_words(node, k).len() implies trie_has(node, #[trigger] children_words(node, k)[i]) by {
                if i < first.len() {
                    let w = words_in_order(child)[i];
                    let v = seq![c] + w;
                    assert(children_words(node, k)[i] == v);
                    assert(v[0] == c);
                    assert(v.skip(1) =~= w);
                    assert(c as u32 == k as u32);
                    assert(trie_has(child, w));
                } else {
                    assert(children_words(node, k)[i] == rest[i - first.len()]);
                }
            }
        }
    }
}

proof fn lemma_node_at_stored(node: TrieNode, p: Seq<char>, w: Seq<char>)
    requires
        node_at(node, p) is Some,
        trie_has(node_at(node, p)->0, w),
    ensures
        trie_has(node, p + w),
    decreases p.len(),
{
    if p.len() > 0 {
        let k = p[0] as u32;
        lemma_node_at_stored(node.children@[k], p.skip(1), w);
        assert((p + w).skip(1) =~= p.skip(1) + w);
        assert((p + w)[0] == p[0]);
    } else {
        assert(p + w =~= w);
    }
}

proof fn lemma_lex_prefix(p: Seq<char>, a: Seq<char>, b: Seq<char>)
    ensures
        lex_lt(p + a, p + b) == lex_lt(a, b),
    decreases p.len(),
{
    if p.len() > 0 {
        assert((p + a).skip(1) =~= p.skip(1) + a);
        assert((p + b).skip(1) =~= p.skip(1) + b);
        assert((p + a)[0] == p[0] && (p + b)[0] == p[0]);
        lemma_lex_prefix(p.skip(1), a, b);
    } else {
        assert(p + a =~= a);
        assert(p + b =~= b);
    }
}

/// Sorted by `lex_lt`, strictly.
pub open spec fn lex_sorted(ws: Seq<Seq<char>>) -> bool {
    forall|i: int, j: int| 0 <= i < j < ws.len() ==> lex_lt(#[trigger] ws[i], #[trigger] ws[j])
}

proof fn lemma_prefixed_sorted(ws: Seq<Seq<char>>, p: Seq<char>)
    requires
        lex_sorted(ws),
    ensures
        lex_sorted(prefixed(ws, p)),
{
    assert forall|i: int, j: int| 0 <= i < j < prefixed(ws, p).len() implies lex_lt(
        #[trigger] prefixed(ws, p)[i],
        #[trigger] prefixed(ws, p)[j],
    ) by {
        lemma_lex_prefix(p, ws[i], ws[j]);
    }
}

proof fn lemma_words_in_order_sorted(node: TrieNode)
    ensures
        lex_sorted(words_in_order(node)),
    decreases node, 0x110001int,
{
    lemma_children_words_sorted(node, 0);
    let own: Seq<Seq<char>> = if node.is_end_of_word {
        seq![Seq::<char>::empty()]
    } else {
        Seq::empty()
    };
    let cw = children_words(node, 0);
    let ws = words_in_order(node);
    assert forall|i: int, j: int| 0 <= i < j < ws.len() implies lex_lt(#[trigger] ws[i], #[trigger] ws[j]) by {
        if i < own.len() {
            assert(ws[i] == Seq::<char>::empty());
            assert(ws[j] == cw[j - own.len()]);
            assert(cw[j - own.len()].len() > 0);
        } else {
            assert(ws[i] == cw[i - own.len()]);
            assert(ws[j] == cw[j - own.len()]);
        }
    }
}

proof fn lemma_children_words_sorted(node: TrieNode, k: int)
    ensures
        lex_sorted(children_words(node, k)),
        forall|i: int| 0 <= i < children_words(node, k).len() ==> (#[trigger] children_words(node, k)[i]).len() > 0
            && children_words(node, k)[i][0] as int >= k,
    decreases node, 0x110000 - k,
{
    if 0 <= k < 0x110000 {
        lemma_children_words_sorted(node, k + 1);
        let rest = children_words(node, k + 1);
        if is_char_code(k) && node.children@.contains_key(k as u32) {
            let child = node.children@[k as u32];
            lemma_words_in_order_sorted(child);
            let c = k as char;
            let first = prefixed(words_in_order(child), seq![c]);
            lemma_prefixed_sorted(words_in_order(child), seq![c]);
            let all = children_words(node, k);
            assert(all == first + rest);
            assert forall|i: int| 0 <= i < first.len() implies (#[trigger] first[i]).len() > 0 && first[i][0] == c by {
                assert(first[i] == seq![c] + words_in_order(child)[i]);
            }
            assert forall|i: int| 0 <= i < all.len() implies (#[trigger] all[i]).len() > 0 && all[i][0] as int >= k by {
                if i < first.len() {
                    assert(all[i] == first[i]);
                    assert(c as int == k);
                } else {
                    assert(all[i] == rest[i - first.len()]);
                }
            }
            assert forall|i: int, j: int| 0 <= i < j < all.len() implies lex_lt(#[trigger] all[i], #[trigger] all[j]) by {
                if j < first.len() {
                    assert(all[i] == first[i] && all[j] == first[j]);
                } else if i < first.len() {
                    assert(all[i] == first[i]);
                    assert(all[j] == rest[j - first.len()]);
                    assert(rest[j - first.len()][0] as int >= k + 1);
                    assert(c as int == k);
                    assert(all[i][0] < all[j][0]);
                } else {
                    assert(all[i] == rest[i - first.len()] && all[j] == rest[j - first.len()]);
                }
            }
        }
    }
}

proof fn lemma_words_in_order_complete(node: TrieNode, w: Seq<char>)
    requires
        trie_has(node, w),
    ensures
        words_in_order(node).contains(w),
    decreases w.len(), 1int,
{
    let own: Seq<Seq<char>> = if node.is_end_of_word {
        seq![Seq::<char>::empty()]
    } else {
        Seq::empty()
    };
    let ws = words_in_order(node);
    if w.len() == 0 {
        assert(ws[0] == own[0]);
        assert(w =~= Seq::<char>::empty());
    } else {
        let c = w[0];
        lemma_char_code(c);
        lemma_children_words_complete(node, w, 0);
        let cw = children_words(node, 0);
        let i = choose|i: int| 0 <= i < cw.len() && cw[i] == w;
        assert(ws[own.len() + i] == cw[i]);
    }
}

proof fn lemma_children_words_complete(node: TrieNode, w: Seq<char>, k: int)
    requires
        w.len() > 0,
        trie_has(node, w),
        0 <= k <= w[0] as int,
    ensures
        children_words(node, k).contains(w),
    decreases w.len(), 0int, w[0] as int - k,
{
    let c = w[0];
    lemma_char_code(c);
    let key = c as u32;
    let rest = children_words(node, k + 1);
    if k == c as int {
        let child = node.children@[key];
        assert(trie_has(child, w.skip(1)));
        lemma_words_in_order_complete(child, w.skip(1));
        let cws = words_in_order(child);
        let i = choose|i: int| 0 <= i < cws.len() && cws[i] == w.skip(1);
        let first = prefixed(cws, seq![c]);
        assert(first[i] == seq![c] + w.skip(1));
        assert(seq![c] + w.skip(1) =~= w);
        assert((k as u32) == key);
        assert(k as char == c);
        assert(children_words(node, k)[i] == first[i]);
    } else {
        lemma_children_words_complete(node, w, k + 1);
        let j = choose|j: int| 0 <= j < rest.len() && rest[j] == w;
        let all = children_words(node, k);
        let off = all.len() - rest.len();
        assert(all[off + j] == rest[j]);
    }
}

/// A character's code is a character code, and converts back.
proof fn lemma_char_code(c: char)
    ensures
        is_char_code(c as int),
        (c as u32) as int == c as int,
        ((c as u32) as int) as char == c,
{
}

proof fn lemma_node_at_found(node: TrieNode, p: Seq<char>, w: Seq<char>)
    requires
        trie_has(node, p + w),
    ensures
        node_at(node, p) is Some,
        trie_has(node_at(node, p)->0, w),
    decreases p.len(),
{
    if p.len() > 0 {
        assert((p + w)[0] == p[0]);
        assert((p + w).skip(1) =~= p.skip(1) + w);
        lemma_node_at_found(node.children@[p[0] as u32], p.skip(1), w);
    } else {
        assert(p + w =~= w);
    }
}

/// A usage record as plain values: the word, how many times it followed the
/// context, and when it was last used (seconds since the Unix epoch).
pub open spec fn rec_view(r: (String, u32, u64)) -> (Seq<char>, u32, u64) {
    (r.0@, r.1, r.2)
}

/// The records of a list, as plain values.
pub open spec fn recs_view(v: Seq<(String, u32, u64)>) -> Seq<(Seq<char>, u32, u64)> {
    v.map_values(|r: (String, u32, u64)| rec_view(r))
}

/// A usage table (context key, records following it), as plain values.
pub open spec fn table_view(t: Seq<(String, Vec<(String, u32, u64)>)>) -> Seq<
    (Seq<char>, Seq<(Seq<char>, u32, u64)>),
> {
    t.map_values(|e: (String, Vec<(String, u32, u64)>)| (e.0@, recs_view(e.1@)))
}

/// The position of the first record of word `w`, or -1.
pub open spec fn word_pos(rs: Seq<(Seq<char>, u32, u64)>, w: Seq<char>) -> int {
    if exists|i: int| 0 <= i < rs.len() && rs[i].0 == w {
        choose|i: int| 0 <= i < rs.len() && rs[i].0 == w && forall|j: int| 0 <= j < i ==> rs[j].0 != w
    } else {
        -1
    }
}

/// The position of the first entry with key `k`, or -1.
pub open spec fn key_pos(t: Seq<(Seq<char>, Seq<(Seq<char>, u32, u64)>)>, k: Seq<char>) -> int {
    if exists|i: int| 0 <= i < t.len() && t[i].0 == k {
        choose|i: int| 0 <= i < t.len() && t[i].0 == k && forall|j: int| 0 <= j < i ==> t[j].0 != k
    } else {
        -1
    }
}

proof fn lemma_word_pos_at(rs: Seq<(Seq<char>, u32, u64)>, w: Seq<char>, i: int)
    requires
        0 <= i < rs.len(),
        rs[i].0 == w,
        forall|j: int| 0 <= j < i ==> rs[j].0 != w,
    ensures
        word_pos(rs, w) == i,
{
    let k = choose|k: int| 0 <= k < rs.len() && rs[k].0 == w && forall|j: int| 0 <= j < k ==> rs[j].0 != w;
    assert(0 <= i < rs.len() && rs[i].0 == w && forall|j: int| 0 <= j < i ==> rs[j].0 != w);
    if k < i {
        assert(rs[k].0 != w);
    } else if k > i {
        assert(rs[i].0 != w);
    }
}

proof fn lemma_key_pos_at(t: Seq<(Seq<char>, Seq<(Seq<char>, u32, u64)>)>, key: Seq<char>, i: int)
    requires
        0 <= i < t.len(),
        t[i].0 == key,
        forall|j: int| 0 <= j < i ==> t[j].0 != key,
    ensures
        key_pos(t, key) == i,
{
    let k = choose|k: int| 0 <= k < t.len() && t[k].0 == key && forall|j: int| 0 <= j < k ==> t[j].0 != key;
    assert(0 <= i < t.len() && t[i].0 == key && forall|j: int| 0 <= j < i ==> t[j].0 != key);
    if k < i {
        assert(t[k].0 != key);
    } else if k > i {
        assert(t[i].0 != key);
    }
}

/// One more use of `w` at time `now`: its count goes up by one (wrapping
/// around at the top of `u32`) and its time is updated; a new word gets
/// count 1.
pub open spec fn bump(rs: Seq<(Seq<char>, u32, u64)>, w: Seq<char>, now: u64) -> Seq<
    (Seq<char>, u32, u64),
> {
    let j = word_pos(rs, w);
    if j >= 0 {
        rs.update(j, (w, if rs[j].1 < u32::MAX { (rs[j].1 + 1) as u32 } else { 0 }, now))
    } else {
        rs.push((w, 1, now))
    }
}

/// The table after `w` was used after the context `k` at time `now`.
pub open spec fn record_in(
    t: Seq<(Seq<char>, Seq<(Seq<char>, u32, u64)>)>,
    k: Seq<char>,
    w: Seq<char>,
    now: u64,
) -> Seq<(Seq<char>, Seq<(Seq<char>, u32, u64)>)> {
    let i = key_pos(t, k);
    if i >= 0 {
        t.update(i, (k, bump(t[i].1, w, now)))
    } else {
        t.push((k, bump(Seq::empty(), w, now)))
    }
}

/// The key of a trigram: the two context words joined by '|'.
pub open spec fn trigram_key(w1: Seq<char>, w2: Seq<char>) -> Seq<char> {
    w1 + seq!['|'] + w2
}

/// The bigram and trigram tables after `current` followed `context` at `now`;
/// every word is taken lowercased.
pub open spec fn usage_after(
    bigrams: Seq<(Seq<char>, Seq<(Seq<char>, u32, u64)>)>,
    trigrams: Seq<(Seq<char>, Seq<(Seq<char>, u32, u64)>)>,
    context: Seq<Seq<char>>,
    current: Seq<char>,
    now: u64,
) -> (Seq<(Seq<char>, Seq<(Seq<char>, u32, u64)>)>, Seq<(Seq<char>, Seq<(Seq<char>, u32, u64)>)>) {
    let c = str_lowercase(current);
    let n = context.len();
    let b = if n >= 1 {
        record_in(bigrams, str_lowercase(context[n - 1]), c, now)
    } else {
        bigrams
    };
    let t = if n >= 2 {
        record_in(
            trigrams,
            trigram_key(str_lowercase(context[n - 2]), str_lowercase(context[n - 1])),
            c,
            now,
        )
    } else {
        trigrams
    };
    (b, t)
}

/// The records stored for key `k`; empty when there are none.
pub open spec fn table_get(t: Seq<(Seq<char>, Seq<(Seq<char>, u32, u64)>)>, k: Seq<char>) -> Seq<
    (Seq<char>, u32, u64),
> {
    let i = key_pos(t, k);
    if i >= 0 {
        t[i].1
    } else {
        Seq::empty()
    }
}

/// The records that followed the context: those after its last two words
/// (trigram) and those after its last word (bigram), every word lowercased.
pub open spec fn next_records(
    bigrams: Seq<(Seq<char>, Seq<(Seq<char>, u32, u64)>)>,
    trigrams: Seq<(Seq<char>, Seq<(Seq<char>, u32, u64)>)>,
    context: Seq<Seq<char>>,
) -> (Seq<(Seq<char>, u32, u64)>, Seq<(Seq<char>, u32, u64)>) {
    let n = context.len();
    let tri = if n >= 2 {
        table_get(trigrams, trigram_key(str_lowercase(context[n - 2]), str_lowercase(context[n - 1])))
    } else {
        Seq::empty()
    };
    let bi = if n >= 1 {
        table_get(bigrams, str_lowercase(context[n - 1]))
    } else {
        Seq::empty()
    };
    (tri, bi)
}

/// The records of the words `ws`, in the order of `ws`; a word with no
/// record is skipped.
pub open spec fn pick_records(rs: Seq<(Seq<char>, u32, u64)>, ws: Seq<Seq<char>>) -> Seq<
    (Seq<char>, u32, u64),
>
    decreases ws.len(),
{
    if ws.len() == 0 {
        Seq::empty()
    } else {
        let p = pick_records(rs, ws.drop_last());
        let j = word_pos(rs, ws.last());
        if j >= 0 {
            p.push(rs[j])
        } else {
            p
        }
    }
}

/// The table with the records of key `k` cut down to those of the words
/// `ws`, in that order; unchanged when `k` has no entry.
pub open spec fn keep_in(
    t: Seq<(Seq<char>, Seq<(Seq<char>, u32, u64)>)>,
    k: Seq<char>,
    ws: Seq<Seq<char>>,
) -> Seq<(Seq<char>, Seq<(Seq<char>, u32, u64)>)> {
    let i = key_pos(t, k);
    if i >= 0 {
        t.update(i, (k, pick_records(t[i].1, ws)))
    } else {
        t
    }
}

/// The table after the records that followed `context` were cut down to
/// `tri_words` (after its last two words) and `bi_words` (after its last
/// word).
pub open spec fn kept_after(
    bigrams: Seq<(Seq<char>, Seq<(Seq<char>, u32, u64)>)>,
    trigrams: Seq<(Seq<char>, Seq<(Seq<char>, u32, u64)>)>,
    context: Seq<Seq<char>>,
    tri_words: Seq<Seq<char>>,
    bi_words: Seq<Seq<char>>,
) -> (Seq<(Seq<char>, Seq<(Seq<char>, u32, u64)>)>, Seq<(Seq<char>, Seq<(Seq<char>, u32, u64)>)>) {
    let n = context.len();
    let b = if n >= 1 {
        keep_in(bigrams, str_lowercase(context[n - 1]), bi_words)
    } else {
        bigrams
    };
    let t = if n >= 2 {
        keep_in(
            trigrams,
            trigram_key(str_lowercase(context[n - 2]), str_lowercase(context[n - 1])),
            tri_words,
        )
    } else {
        trigrams
    };
    (b, t)
}

/// A copy of a list of records.
fn copy_records(rs: &Vec<(String, u32, u64)>) -> (r: Vec<(String, u32, u64)>)
    ensures
        recs_view(r@) == recs_view(rs@),
{
    let mut r: Vec<(String, u32, u64)> = Vec::new();
    let mut i: usize = 0;
    while i < rs.len()
        invariant
            i <= rs.len(),
            recs_view(r@) == recs_view(rs@).take(i as int),
        decreases rs.len() - i,
    {
        let ghost before = r@;
        r.push((copy_string(&rs[i].0), rs[i].1, rs[i].2));
        assert(recs_view(r@) =~= recs_view(rs@).take(i + 1)) by {
            assert(recs_view(r@) =~= recs_view(before).push(rec_view(rs@[i as int])));
        }
        i += 1;
    }
    assert(recs_view(rs@).take(rs.len() as int) =~= recs_view(rs@));
    r
}

/// The records of key `k` in a table.
fn records_of(t: &Vec<(String, Vec<(String, u32, u64)>)>, k: &String) -> (r: Vec<(String, u32, u64)>)
    ensures
        recs_view(r@) == table_get(table_view(t@), k@),
{
    match find_key(t, k) {
        Some(i) => copy_records(&t[i].1),
        None => {
            let r: Vec<(String, u32, u64)> = Vec::new();
            assert(recs_view(r@) =~= Seq::<(Seq<char>, u32, u64)>::empty());
            r
        },
    }
}

/// The words of a slice of string slices.
pub open spec fn strs_view(v: Seq<&str>) -> Seq<Seq<char>> {
    v.map_values(|s: &str| s@)
}

/// The position of the first record of `w`.
fn find_word(rs: &Vec<(String, u32, u64)>, w: &String) -> (r: Option<usize>)
    ensures
        match r {
            Some(j) => j < rs.len() && word_pos(recs_view(rs@), w@) == j && rs@[j as int].0@ == w@,
            None => word_pos(recs_view(rs@), w@) == -1,
        },
{
    let ghost v = recs_view(rs@);
    let mut i: usize = 0;
    while i < rs.len()
        invariant
            i <= rs.len(),
            v == recs_view(rs@),
            forall|j: int| 0 <= j < i ==> v[j].0 != w@,
        decreases rs.len() - i,
    {
        if str_eq(rs[i].0.as_str(), w.as_str()) {
            proof {
                lemma_word_pos_at(v, w@, i as int);
            }
            return Some(i);
        }
        i += 1;
    }
    None
}

/// The position of the first entry with key `k`.
fn find_key(t: &Vec<(String, Vec<(String, u32, u64)>)>, k: &String) -> (r: Option<usize>)
    ensures
        match r {
            Some(i) => i < t.len() && key_pos(table_view(t@), k@) == i && t@[i as int].0@ == k@,
            None => key_pos(table_view(t@), k@) == -1,
        },
{
    let ghost v = table_view(t@);
    let mut i: usize = 0;
    while i < t.len()
        invariant
            i <= t.len(),
            v == table_view(t@),
            forall|j: int| 0 <= j < i ==> v[j].0 != k@,
        decreases t.len() - i,
    {
        if str_eq(t[i].0.as_str(), k.as_str()) {
            proof {
                lemma_key_pos_at(v, k@, i as int);
            }
            return Some(i);
        }
        i += 1;
    }
    None
}

/// Records one more use of `w` in a list.
fn bump_records(rs: &mut Vec<(String, u32, u64)>, w: &String, now: u64)
    ensures
        recs_view(final(rs)@) == bump(recs_view(old(rs)@), w@, now),
{
    match find_word(rs, w) {
        Some(j) => {
            let count = rs[j].1;
            let next = if count < u32::MAX {
                count + 1
            } else {
                0
            };
            let word = copy_string(&rs[j].0);
            rs.set(j, (word, next, now));
            assert(recs_view(rs@) =~= bump(recs_view(old(rs)@), w@, now));
        },
        None => {
            rs.push((copy_string(w), 1, now));
            assert(recs_view(rs@) =~= bump(recs_view(old(rs)@), w@, now));
        },
    }
}

proof fn lemma_table_view_update(
    s: Seq<(String, Vec<(String, u32, u64)>)>,
    i: int,
    e: (String, Vec<(String, u32, u64)>),
)
    requires
        0 <= i < s.len(),
    ensures
        table_view(s.update(i, e)) == table_view(s).update(i, (e.0@, recs_view(e.1@))),
{
    assert(table_view(s.update(i, e)) =~= table_view(s).update(i, (e.0@, recs_view(e.1@))));
}

proof fn lemma_table_view_push(s: Seq<(String, Vec<(String, u32, u64)>)>, e: (String, Vec<(String, u32, u64)>))
    ensures
        table_view(s.push(e)) == table_view(s).push((e.0@, recs_view(e.1@))),
{
    assert(table_view(s.push(e)) =~= table_view(s).push((e.0@, recs_view(e.1@))));
}

proof fn lemma_remove_insert<T>(s: Seq<T>, i: int, x: T)
    requires
        0 <= i < s.len(),
    ensures
        s.remove(i).insert(i, x) == s.update(i, x),
{
    assert(s.remove(i).insert(i, x) =~= s.update(i, x));
}

/// Records one more use of `w` in the entry at `i`, whose key is `k`.
fn bump_entry(t: &mut Vec<(String, Vec<(String, u32, u64)>)>, i: usize, w: &String, now: u64)
    requires
        i < old(t).len(),
    ensures
        table_view(final(t)@) == table_view(old(t)@).update(
            i as int,
            (table_view(old(t)@)[i as int].0, bump(table_view(old(t)@)[i as int].1, w@, now)),
        ),
{
    let (key, mut recs) = t.remove(i);
    bump_records(&mut recs, w, now);
    let ghost e = (key, recs);
    t.insert(i, (key, recs));
    proof {
        lemma_remove_insert(old(t)@, i as int, e);
        lemma_table_view_update(old(t)@, i as int, e);
    }
}

proof fn lemma_pick_step(v: Seq<(Seq<char>, u32, u64)>, sv: Seq<Seq<char>>, i: int)
    requires
        0 <= i < sv.len(),
    ensures
        pick_records(v, sv.take(i + 1)) == (if word_pos(v, sv[i]) >= 0 {
            pick_records(v, sv.take(i)).push(v[word_pos(v, sv[i])])
        } else {
            pick_records(v, sv.take(i))
        }),
{
    assert(sv.take(i + 1).drop_last() =~= sv.take(i));
    assert(sv.take(i + 1).last() == sv[i]);
}

/// The records of the words `ws`, in their order.
#[verifier::rlimit(30)]
fn pick_exec(rs: &Vec<(String, u32, u64)>, ws: &[String]) -> (r: Vec<(String, u32, u64)>)
    ensures
        recs_view(r@) == pick_records(recs_view(rs@), strings_view(ws@)),
{
    let ghost v = recs_view(rs@);
    let ghost sv = strings_view(ws@);
    let mut r: Vec<(String, u32, u64)> = Vec::new();
    let mut i: usize = 0;
    proof {
        assert(sv.take(0) =~= Seq::<Seq<char>>::empty());
        assert(recs_view(r@) =~= Seq::<(Seq<char>, u32, u64)>::empty());
    }
    while i < ws.len()
        invariant
            i <= ws.len(),
            v == recs_view(rs@),
            sv == strings_view(ws@),
            sv.len() == ws@.len(),
            recs_view(r@) == pick_records(v, sv.take(i as int)),
        decreases ws.len() - i,
    {
        proof {
            lemma_pick_step(v, sv, i as int);
            assert(sv[i as int] == ws@[i as int]@);
        }
        let ghost before = r@;
        match find_word(rs, &ws[i]) {
            Some(j) => {
                r.push((copy_string(&rs[j].0), rs[j].1, rs[j].2));
                proof {
                    assert(recs_view(r@) =~= recs_view(before).push(v[j as int]));
                }
            },
            None => {},
        }
        i += 1;
    }
    proof {
        assert(sv.take(ws.len() as int) =~= sv);
    }
    r
}

/// Cuts the records of key `k` down to those of the words `ws`.
fn keep_in_table(t: &mut Vec<(String, Vec<(String, u32, u64)>)>, k: &String, ws: &[String])
    ensures
        table_view(final(t)@) == keep_in(table_view(old(t)@), k@, strings_view(ws@)),
{
    match find_key(t, k) {
        Some(i) => {
            let (key, recs) = t.remove(i);
            let kept = pick_exec(&recs, ws);
            let ghost e = (key, kept);
            t.insert(i, (key, kept));
            proof {
                lemma_remove_insert(old(t)@, i as int, e);
                lemma_table_view_update(old(t)@, i as int, e);
            }
        },
        None => {},
    }
}

/// Records one more use of `w` after the context key `k`.
fn record_in_table(t: &mut Vec<(String, Vec<(String, u32, u64)>)>, k: String, w: &String, now: u64)
    ensures
        table_view(final(t)@) == record_in(table_view(old(t)@), k@, w@, now),
{
    match find_key(t, &k) {
        Some(i) => {
            bump_entry(t, i, w, now);
        },
        None => {
            let mut recs: Vec<(String, u32, u64)> = Vec::new();
            assert(recs_view(recs@) =~= Seq::<(Seq<char>, u32, u64)>::empty());
            bump_records(&mut recs, w, now);
            let ghost e = (k, recs);
            t.push((k, recs));
            proof {
                lemma_table_view_push(old(t)@, e);
            }
        },
    }
}

/// The current time in seconds since the Unix epoch
/// (`SystemTime::now().duration_since(UNIX_EPOCH)`, 0 if the clock is
/// earlier). Nothing is claimed of the value.
#[verifier::external_body]
fn get_now() -> (r: u64) {
    std::time::SystemTime::now().duration_since(std::time::UNIX_EPOCH).unwrap_or_default().as_secs()
}

/// The words that `load_common_words` adds.
pub open spec fn common_words() -> Seq<Seq<char>> {
    seq![
        "anh"@, "ăn"@, "âm"@, "áp"@, "ác"@, "ai"@, "ao"@, "âu"@,
        "ba"@, "bà"@, "bố"@, "mẹ"@, "em"@, "chị"@, "ông"@, "bà"@,
        "con"@, "cái"@, "của"@, "cho"@, "chư"@, "chưa"@, "chẳng"@, "chỉ"@,
        "đi"@, "đến"@, "đang"@, "đã"@, "được"@, "đây"@, "đó"@, "đâu"@,
        "em"@, "ép"@, "êm"@, "ế"@, "ếch"@, "không"@, "khá"@, "khi"@,
        "khác"@, "khó"@, "khu"@, "khuyên"@, "là"@, "làm"@, "lên"@, "lấy"@,
        "lại"@, "luôn"@, "lòng"@, "mình"@, "mà"@, "mới"@, "mỗi"@, "muốn"@,
        "mang"@, "mắt"@, "người"@, "ngày"@, "nghĩ"@, "nghe"@, "ngon"@, "ngọt"@,
        "ngu"@, "ở"@, "ơi"@, "ông"@, "ô"@, "ố"@, "phải"@, "phần"@,
        "phát"@, "phòng"@, "phố"@, "phương"@, "quá"@, "qua"@, "quanh"@, "quan"@,
        "quận"@, "quyết"@, "rằng"@, "rồi"@, "rất"@, "ra"@, "riêng"@, "rừng"@,
        "sẽ"@, "sau"@, "sang"@, "sáng"@, "sống"@, "sao"@, "ta"@, "tôi"@,
        "tới"@, "từ"@, "tại"@, "thấy"@, "theo"@, "thì"@, "uống"@, "uốn"@,
        "u"@, "ú"@, "và"@, "với"@, "về"@, "vừa"@, "việc"@, "vẫn"@,
        "vậy"@, "xem"@, "xuống"@, "xong"@, "xanh"@, "xấu"@, "xinh"@, "yêu"@,
        "yếu"@, "ý"@, "yên"@, "việt"@, "nam"@, "tiếng"@, "học"@, "tập"@,
        "chơi"@, "ngủ"@, "nghỉ"@, "trường"@, "lớp"@, "bạn"@, "thầy"@, "cô"@,
        "giáo"@, "viên"@, "cộng"@, "hòa"@, "xã"@, "hội"@, "chủ"@, "nghĩa"@
    ]
}

/// The (word, next word) pairs that `load_common_words` records.
pub open spec fn default_bigrams() -> Seq<(Seq<char>, Seq<char>)> {
    seq![
        ("việt"@, "nam"@), ("việt"@, "vị"@), ("việt"@, "hàn"@), ("cộng"@, "hòa"@),
        ("hòa"@, "bình"@), ("tiếng"@, "việt"@), ("tiếng"@, "anh"@), ("tiếng"@, "pháp"@),
        ("học"@, "tập"@), ("học"@, "sinh"@), ("học"@, "vấn"@), ("người"@, "việt"@),
        ("người"@, "đẹp"@), ("người"@, "dân"@), ("đang"@, "làm"@), ("đang"@, "chơi"@),
        ("đang"@, "học"@), ("chào"@, "anh"@), ("chào"@, "chị"@), ("chào"@, "em"@),
        ("chào"@, "bạn"@), ("ăn"@, "cơm"@), ("ăn"@, "phở"@), ("ăn"@, "bún"@),
        ("tôi"@, "đang"@), ("tôi"@, "là"@), ("tôi"@, "muốn"@), ("tôi"@, "nghĩ"@)
    ]
}

/// The set after inserting each word, lowercased.
pub open spec fn words_inserted(s: Set<Seq<char>>, ws: Seq<Seq<char>>) -> Set<Seq<char>>
    decreases ws.len(),
{
    if ws.len() == 0 {
        s
    } else {
        words_inserted(s, ws.drop_last()).insert(str_lowercase(ws.last()))
    }
}

/// The set after inserting the trimmed non-empty lines, lowercased.
pub open spec fn lines_inserted(s: Set<Seq<char>>, ls: Seq<Seq<char>>) -> Set<Seq<char>>
    decreases ls.len(),
{
    if ls.len() == 0 {
        s
    } else {
        let s1 = lines_inserted(s, ls.drop_last());
        if trim(ls.last()).len() > 0 {
            s1.insert(str_lowercase(trim(ls.last())))
        } else {
            s1
        }
    }
}

/// The bigram table after recording each pair, lowercased, at `now`.
pub open spec fn pairs_recorded(
    t: Seq<(Seq<char>, Seq<(Seq<char>, u32, u64)>)>,
    ps: Seq<(Seq<char>, Seq<char>)>,
    now: u64,
) -> Seq<(Seq<char>, Seq<(Seq<char>, u32, u64)>)>
    decreases ps.len(),
{
    if ps.len() == 0 {
        t
    } else {
        record_in(
            pairs_recorded(t, ps.drop_last(), now),
            str_lowercase(ps.last().0),
            str_lowercase(ps.last().1),
            now,
        )
    }
}

/// The dictionary of known words, with the word sequences seen so far.
#[derive(Debug)]
pub struct Dictionary {
    root: TrieNode,
    /// For a word, the words that followed it.
    bigrams: Vec<(String, Vec<(String, u32, u64)>)>,
    /// For two words ("w1|w2"), the words that followed them.
    trigrams: Vec<(String, Vec<(String, u32, u64)>)>,
}

impl View for Dictionary {
    type V = Set<Seq<char>>;

    closed spec fn view(&self) -> Set<Seq<char>> {
        trie_words(self.root)
    }
}

impl Default for Dictionary {
    fn default() -> (r: Self)
        ensures
            r@ == Set::<Seq<char>>::empty(),
            r.bigram_table() == Seq::<(Seq<char>, Seq<(Seq<char>, u32, u64)>)>::empty(),
            r.trigram_table() == Seq::<(Seq<char>, Seq<(Seq<char>, u32, u64)>)>::empty(),
    {
        Dictionary::new()
    }
}

impl Dictionary {
    /// For each word, the words that followed it, in first-use order.
    pub closed spec fn bigram_table(&self) -> Seq<(Seq<char>, Seq<(Seq<char>, u32, u64)>)> {
        table_view(self.bigrams@)
    }

    /// For each pair of words, the words that followed them.
    pub closed spec fn trigram_table(&self) -> Seq<(Seq<char>, Seq<(Seq<char>, u32, u64)>)> {
        table_view(self.trigrams@)
    }

    /// An empty dictionary.
    pub fn new() -> (r: Self)
        ensures
            r@ == Set::<Seq<char>>::empty(),
            r.bigram_table() == Seq::<(Seq<char>, Seq<(Seq<char>, u32, u64)>)>::empty(),
            r.trigram_table() == Seq::<(Seq<char>, Seq<(Seq<char>, u32, u64)>)>::empty(),
    {
        let r = Dictionary { root: TrieNode::new(), bigrams: Vec::new(), trigrams: Vec::new() };
        assert(r@ =~= Set::<Seq<char>>::empty());
        assert(r.bigram_table() =~= Seq::empty());
        assert(r.trigram_table() =~= Seq::empty());
        r
    }

    /// Add a word (stored lowercased).
    pub fn insert(&mut self, word: &str)
        ensures
            final(self)@ == old(self)@.insert(str_lowercase(word@)),
            final(self).bigram_table() == old(self).bigram_table(),
            final(self).trigram_table() == old(self).trigram_table(),
    {
        let w = chars_to_lowercase(chars_of(word).as_slice());
        self.root.insert_from(&w, 0);
        assert(w@.skip(0) == w@);
        assert(self@ =~= old(self)@.insert(str_lowercase(word@)));
    }

    /// Check if a word exists in the dictionary (compared lowercased).
    pub fn contains(&self, word: &str) -> (r: bool)
        ensures
            r == self@.contains(str_lowercase(word@)),
    {
        let w = chars_to_lowercase(chars_of(word).as_slice());
        let mut cur = &self.root;
        let mut i: usize = 0;
        assert(w@.skip(0) == w@);
        while i < w.len()
            invariant
                i <= w.len(),
                trie_has(*cur, w@.skip(i as int)) == trie_has(self.root, w@),
                w@ == str_lowercase(word@),
            decreases w.len() - i,
        {
            let k = w[i] as u32;
            assert(w@.skip(i as int).skip(1) == w@.skip(i + 1));
            assert(w@.skip(i as int)[0] == w@[i as int]);
            match cur.children.get(&k) {
                Some(n) => {
                    cur = n;
                },
                None => {
                    assert(!trie_has(*cur, w@.skip(i as int)));
                    return false;
                },
            }
            i += 1;
        }
        assert(w@.skip(w.len() as int) =~= Seq::<char>::empty());
        cur.is_end_of_word
    }

    /// The completions of `prefix` (compared as typed): up to five stored
    /// words that start with it, shorter words first and then by increasing
    /// characters.
    pub closed spec fn completions_of(&self, prefix: Seq<char>) -> Seq<Seq<char>> {
        completions(self.root, prefix)
    }

    /// Every completion of a prefix is a stored word that starts with the
    /// prefix, and there are at most five.
    pub proof fn law_completions_are_stored(&self, prefix: Seq<char>)
        ensures
            self.completions_of(prefix).len() <= 5,
            forall|i: int| 0 <= i < self.completions_of(prefix).len() ==> {
                &&& self@.contains(#[trigger] self.completions_of(prefix)[i])
                &&& self.completions_of(prefix)[i].take(prefix.len() as int) == prefix
            },
    {
        match node_at(self.root, prefix) {
            Some(n) => {
                lemma_words_in_order_stored(n);
                let all = prefixed(words_in_order(n), prefix);
                let c = limited(all, 5);
                assert forall|i: int| 0 <= i < c.len() implies {
                    &&& self@.contains(#[trigger] c[i])
                    &&& c[i].take(prefix.len() as int) == prefix
                } by {
                    assert(c[i] == all[i]);
                    let w = words_in_order(n)[i];
                    assert(all[i] == prefix + w);
                    lemma_node_at_stored(self.root, prefix, w);
                    assert((prefix + w).take(prefix.len() as int) =~= prefix);
                }
            },
            None => {},
        }
    }

    /// The completions come in strictly increasing order (`lex_lt`: a word
    /// before its extensions, then by increasing characters).
    pub proof fn law_completions_sorted(&self, prefix: Seq<char>)
        ensures
            lex_sorted(self.completions_of(prefix)),
    {
        match node_at(self.root, prefix) {
            Some(n) => {
                lemma_words_in_order_sorted(n);
                lemma_prefixed_sorted(words_in_order(n), prefix);
            },
            None => {},
        }
    }

    /// A stored word that starts with the prefix is among the completions,
    /// unless there are five completions and all of them come before it.
    pub proof fn law_completions_complete(&self, prefix: Seq<char>, w: Seq<char>)
        requires
            self@.contains(w),
            w.len() >= prefix.len(),
            w.take(prefix.len() as int) == prefix,
        ensures
            self.completions_of(prefix).contains(w) || (self.completions_of(prefix).len() == 5
                && lex_lt(self.completions_of(prefix)[4], w)),
    {
        let rest = w.skip(prefix.len() as int);
        assert(prefix + rest =~= w);
        assert(trie_has(self.root, w));
        lemma_node_at_found(self.root, prefix, rest);
        let n = node_at(self.root, prefix)->0;
        lemma_words_in_order_complete(n, rest);
        lemma_words_in_order_sorted(n);
        let ws = words_in_order(n);
        lemma_prefixed_sorted(ws, prefix);
        let all = prefixed(ws, prefix);
        let i = choose|i: int| 0 <= i < ws.len() && ws[i] == rest;
        assert(all[i] == w);
        let c = limited(all, 5);
        if all.len() <= 5 || i < 5 {
            assert(c[i] == all[i]);
        } else {
            assert(c[4] == all[4]);
            assert(lex_lt(all[4], all[i]));
        }
    }

    /// Up to five stored words that start with `prefix` (see
    /// `completions_of`).
    pub fn find_completions(&self, prefix: &str) -> (r: Vec<String>)
        ensures
            strings_view(r@) == self.completions_of(prefix@),
    {
        let pc = chars_of(prefix);
        let mut cur = &self.root;
        let mut i: usize = 0;
        assert(pc@.skip(0) == pc@);
        while i < pc.len()
            invariant
                i <= pc.len(),
                pc@ == prefix@,
                node_at(self.root, pc@) == node_at(*cur, pc@.skip(i as int)),
            decreases pc.len() - i,
        {
            let k = pc[i] as u32;
            assert(pc@.skip(i as int).skip(1) == pc@.skip(i + 1));
            assert(pc@.skip(i as int)[0] == pc@[i as int]);
            match cur.children.get(&k) {
                Some(n) => {
                    cur = n;
                },
                None => {
                    let r: Vec<String> = Vec::new();
                    assert(strings_view(r@) =~= Seq::<Seq<char>>::empty());
                    return r;
                },
            }
            i += 1;
        }
        assert(pc@.skip(pc.len() as int) =~= Seq::<char>::empty());
        let mut results: Vec<String> = Vec::new();
        collect_words(cur, &pc, &mut results);
        assert(Seq::<Seq<char>>::empty() + limited(prefixed(words_in_order(*cur), pc@), 5) =~= limited(
            prefixed(words_in_order(*cur), pc@),
            5,
        ));
        results
    }

    /// Add the trimmed non-empty lines as words (one word per line).
    pub fn load_lines(&mut self, lines: &[String])
        ensures
            final(self)@ == lines_inserted(old(self)@, lines@.map_values(|l: String| l@)),
            final(self).bigram_table() == old(self).bigram_table(),
            final(self).trigram_table() == old(self).trigram_table(),
    {
        let ghost ls = lines@.map_values(|l: String| l@);
        let mut i: usize = 0;
        assert(ls.take(0) =~= Seq::<Seq<char>>::empty());
        while i < lines.len()
            invariant
                i <= lines.len(),
                ls == lines@.map_values(|l: String| l@),
                self@ == lines_inserted(old(self)@, ls.take(i as int)),
                self.bigram_table() == old(self).bigram_table(),
                self.trigram_table() == old(self).trigram_table(),
            decreases lines.len() - i,
        {
            assert(ls.take(i + 1).drop_last() =~= ls.take(i as int));
            assert(ls.take(i + 1).last() == lines@[i as int]@);
            let t = trim_chars(chars_of(lines[i].as_str()).as_slice());
            if t.len() > 0 {
                let w = string_of(t.as_slice());
                self.insert(w.as_str());
            }
            i += 1;
        }
        assert(ls.take(lines.len() as int) =~= ls);
    }

    /// Add a basic set of common Vietnamese words, and record common word
    /// pairs at time `now`.
    pub fn load_common_words_at(&mut self, now: u64)
        ensures
            final(self)@ == words_inserted(old(self)@, common_words()),
            final(self).bigram_table() == pairs_recorded(old(self).bigram_table(), default_bigrams(), now),
            final(self).trigram_table() == old(self).trigram_table(),
    {
        let words: Vec<&str> = vec![
            "anh", "ăn", "âm", "áp", "ác", "ai", "ao", "âu",
            "ba", "bà", "bố", "mẹ", "em", "chị", "ông", "bà",
            "con", "cái", "của", "cho", "chư", "chưa", "chẳng", "chỉ",
            "đi", "đến", "đang", "đã", "được", "đây", "đó", "đâu",
            "em", "ép", "êm", "ế", "ếch", "không", "khá", "khi",
            "khác", "khó", "khu", "khuyên", "là", "làm", "lên", "lấy",
            "lại", "luôn", "lòng", "mình", "mà", "mới", "mỗi", "muốn",
            "mang", "mắt", "người", "ngày", "nghĩ", "nghe", "ngon", "ngọt",
            "ngu", "ở", "ơi", "ông", "ô", "ố", "phải", "phần",
            "phát", "phòng", "phố", "phương", "quá", "qua", "quanh", "quan",
            "quận", "quyết", "rằng", "rồi", "rất", "ra", "riêng", "rừng",
            "sẽ", "sau", "sang", "sáng", "sống", "sao", "ta", "tôi",
            "tới", "từ", "tại", "thấy", "theo", "thì", "uống", "uốn",
            "u", "ú", "và", "với", "về", "vừa", "việc", "vẫn",
            "vậy", "xem", "xuống", "xong", "xanh", "xấu", "xinh", "yêu",
            "yếu", "ý", "yên", "việt", "nam", "tiếng", "học", "tập",
            "chơi", "ngủ", "nghỉ", "trường", "lớp", "bạn", "thầy", "cô",
            "giáo", "viên", "cộng", "hòa", "xã", "hội", "chủ", "nghĩa"
        ];
        assert(strs_view(words@) =~= common_words());
        let mut i: usize = 0;
        assert(common_words().take(0) =~= Seq::<Seq<char>>::empty());
        while i < words.len()
            invariant
                i <= words.len(),
                strs_view(words@) == common_words(),
                self@ == words_inserted(old(self)@, common_words().take(i as int)),
                self.bigram_table() == old(self).bigram_table(),
                self.trigram_table() == old(self).trigram_table(),
            decreases words.len() - i,
        {
            assert(common_words().take(i + 1).drop_last() =~= common_words().take(i as int));
            assert(common_words().take(i + 1).last() == words@[i as int]@);
            self.insert(words[i]);
            i += 1;
        }
        assert(common_words().take(words.len() as int) =~= common_words());
        let flat: Vec<&str> = vec![
            "việt", "nam", "việt", "vị", "việt", "hàn", "cộng", "hòa",
            "hòa", "bình", "tiếng", "việt", "tiếng", "anh", "tiếng", "pháp",
            "học", "tập", "học", "sinh", "học", "vấn", "người", "việt",
            "người", "đẹp", "người", "dân", "đang", "làm", "đang", "chơi",
            "đang", "học", "chào", "anh", "chào", "chị", "chào", "em",
            "chào", "bạn", "ăn", "cơm", "ăn", "phở", "ăn", "bún",
            "tôi", "đang", "tôi", "là", "tôi", "muốn", "tôi", "nghĩ"
        ];
        assert(flat.len() == 2 * default_bigrams().len());
        assert forall|j: int| 0 <= j < default_bigrams().len() implies (#[trigger] default_bigrams()[j]).0
            == flat@[2 * j]@ && default_bigrams()[j].1 == flat@[2 * j + 1]@ by {
        }
        let ghost ps = default_bigrams();
        let ghost b0 = self.bigram_table();
        let mut j: usize = 0;
        assert(ps.take(0) =~= Seq::<(Seq<char>, Seq<char>)>::empty());
        while j < flat.len() / 2
            invariant
                j <= flat.len() / 2,
                flat.len() == 2 * ps.len(),
                ps == default_bigrams(),
                forall|k: int| 0 <= k < ps.len() ==> (#[trigger] ps[k]).0 == flat@[2 * k]@ && ps[k].1
                    == flat@[2 * k + 1]@,
                self@ == words_inserted(old(self)@, common_words()),
                self.bigram_table() == pairs_recorded(b0, ps.take(j as int), now),
                self.trigram_table() == old(self).trigram_table(),
            decreases flat.len() / 2 - j,
        {
            assert(ps.take(j + 1).drop_last() =~= ps.take(j as int));
            assert(ps.take(j + 1).last() == ps[j as int]);
            let prev = flat[2 * j];
            let next = flat[2 * j + 1];
            let ctx: Vec<&str> = vec![prev];
            assert(strs_view(ctx@) =~= seq![prev@]);
            self.record_usage_at(ctx.as_slice(), next, now);
            j += 1;
        }
        assert(ps.take(ps.len() as int) =~= ps);
    }

    /// Add a basic set of common Vietnamese words and common word pairs.
    pub fn load_common_words(&mut self)
        ensures
            final(self)@ == words_inserted(old(self)@, common_words()),
            exists|now: u64| #[trigger] pairs_recorded(old(self).bigram_table(), default_bigrams(), now)
                == final(self).bigram_table(),
            final(self).trigram_table() == old(self).trigram_table(),
    {
        let now = get_now();
        self.load_common_words_at(now);
    }

    /// The records of the words that followed the context: after its last
    /// two words, and after its last word.
    pub fn next_word_records(&self, context: &[&str]) -> (r: (
        Vec<(String, u32, u64)>,
        Vec<(String, u32, u64)>,
    ))
        ensures
            (recs_view(r.0@), recs_view(r.1@)) == next_records(
                self.bigram_table(),
                self.trigram_table(),
                strs_view(context@),
            ),
    {
        let ghost ctx = strs_view(context@);
        let n = context.len();
        let tri = if n >= 2 {
            let w1 = str_to_lowercase(context[n - 2]);
            let w2 = str_to_lowercase(context[n - 1]);
            assert(context@[n - 2]@ == ctx[n - 2]);
            assert(context@[n - 1]@ == ctx[n - 1]);
            let mut key = String::new();
            push_str(&mut key, w1.as_str());
            key.push('|');
            push_str(&mut key, w2.as_str());
            assert(key@ =~= trigram_key(w1@, w2@));
            records_of(&self.trigrams, &key)
        } else {
            let r: Vec<(String, u32, u64)> = Vec::new();
            assert(recs_view(r@) =~= Seq::<(Seq<char>, u32, u64)>::empty());
            r
        };
        let bi = if n >= 1 {
            let prev = str_to_lowercase(context[n - 1]);
            assert(context@[n - 1]@ == ctx[n - 1]);
            records_of(&self.bigrams, &prev)
        } else {
            let r: Vec<(String, u32, u64)> = Vec::new();
            assert(recs_view(r@) =~= Seq::<(Seq<char>, u32, u64)>::empty());
            r
        };
        (tri, bi)
    }

    /// Record that `current` followed the words of `context` at time `now`:
    /// after its last word (bigram) and after its last two words (trigram).
    pub fn record_usage_at(&mut self, context: &[&str], current: &str, now: u64)
        ensures
            final(self)@ == old(self)@,
            (final(self).bigram_table(), final(self).trigram_table()) == usage_after(
                old(self).bigram_table(),
                old(self).trigram_table(),
                strs_view(context@),
                current@,
                now,
            ),
    {
        let ghost ctx = strs_view(context@);
        let current_low = str_to_lowercase(current);
        let n = context.len();
        if n >= 1 {
            let prev_low = str_to_lowercase(context[n - 1]);
            assert(context@[n - 1]@ == ctx[n - 1]);
            record_in_table(&mut self.bigrams, prev_low, &current_low, now);
        }
        if n >= 2 {
            let w1 = str_to_lowercase(context[n - 2]);
            let w2 = str_to_lowercase(context[n - 1]);
            assert(context@[n - 2]@ == ctx[n - 2]);
            assert(context@[n - 1]@ == ctx[n - 1]);
            let mut key = String::new();
            push_str(&mut key, w1.as_str());
            key.push('|');
            push_str(&mut key, w2.as_str());
            assert(key@ =~= trigram_key(w1@, w2@));
            record_in_table(&mut self.trigrams, key, &current_low, now);
        }
    }

    /// Cut the records of the words that followed the context down to the
    /// given words, in the given order: those after its last two words to
    /// `trigram_words`, those after its last word to `bigram_words`. A caller
    /// that ranks the records keeps the best ones this way.
    pub fn keep_next_records(
        &mut self,
        context: &[&str],
        trigram_words: &[String],
        bigram_words: &[String],
    )
        ensures
            final(self)@ == old(self)@,
            (final(self).bigram_table(), final(self).trigram_table()) == kept_after(
                old(self).bigram_table(),
                old(self).trigram_table(),
                strs_view(context@),
                strings_view(trigram_words@),
                strings_view(bigram_words@),
            ),
    {
        let ghost ctx = strs_view(context@);
        let n = context.len();
        if n >= 1 {
            let prev_low = str_to_lowercase(context[n - 1]);
            assert(context@[n - 1]@ == ctx[n - 1]);
            keep_in_table(&mut self.bigrams, &prev_low, bigram_words);
        }
        if n >= 2 {
            let w1 = str_to_lowercase(context[n - 2]);
            let w2 = str_to_lowercase(context[n - 1]);
            assert(context@[n - 2]@ == ctx[n - 2]);
            assert(context@[n - 1]@ == ctx[n - 1]);
            let mut key = String::new();
            push_str(&mut key, w1.as_str());
            key.push('|');
            push_str(&mut key, w2.as_str());
            assert(key@ =~= trigram_key(w1@, w2@));
            keep_in_table(&mut self.trigrams, &key, trigram_words);
        }
    }

    /// Record that `current` followed the words of `context`, now.
    pub fn record_usage(&mut self, context: &[&str], current: &str)
        ensures
            final(self)@ == old(self)@,
            exists|now: u64|
                (final(self).bigram_table(), final(self).trigram_table()) == #[trigger] usage_after(
                    old(self).bigram_table(),
                    old(self).trigram_table(),
                    strs_view(context@),
                    current@,
                    now,
                ),
    {
        let now = get_now();
        self.record_usage_at(context, current, now);
    }
}

/// A word that was inserted is found, in any letter case that lowercases
/// the same.
pub proof fn law_insert_then_contains(s: Set<Seq<char>>, w: Seq<char>, probe: Seq<char>)
    requires
        str_lowercase(probe) == str_lowercase(w),
    ensures
        s.insert(str_lowercase(w)).contains(str_lowercase(probe)),
{
}

proof fn lemma_key_pos_found(t: Seq<(Seq<char>, Seq<(Seq<char>, u32, u64)>)>, k: Seq<char>, j: int)
    requires
        0 <= j < t.len(),
        t[j].0 == k,
    ensures
        0 <= key_pos(t, k) <= j,
        t[key_pos(t, k)].0 == k,
    decreases j,
{
    if exists|m: int| 0 <= m < j && t[m].0 == k {
        let m = choose|m: int| 0 <= m < j && t[m].0 == k;
        lemma_key_pos_found(t, k, m);
    } else {
        lemma_key_pos_at(t, k, j);
    }
}

/// Recording a use never loses a context: every key of the table is still
/// there, and the recorded key is present.
pub proof fn law_record_keeps_keys(
    t: Seq<(Seq<char>, Seq<(Seq<char>, u32, u64)>)>,
    k: Seq<char>,
    w: Seq<char>,
    now: u64,
)
    ensures
        forall|i: int| 0 <= i < t.len() ==> #[trigger] record_in(t, k, w, now)[i].0 == t[i].0,
        exists|i: int| 0 <= i < record_in(t, k, w, now).len() && #[trigger] record_in(t, k, w, now)[i].0 == k,
{
    if exists|j: int| 0 <= j < t.len() && t[j].0 == k {
        let j = choose|j: int| 0 <= j < t.len() && t[j].0 == k;
        lemma_key_pos_found(t, k, j);
        let i = key_pos(t, k);
        assert(record_in(t, k, w, now)[i].0 == k);
    } else {
        assert(key_pos(t, k) == -1);
        assert(record_in(t, k, w, now)[t.len() as int].0 == k);
    }
}

} // verus!
