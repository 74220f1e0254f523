//! BM25 keyword index: the bookkeeping half.
//!
//! Text is split on whitespace, lowercased, and empty tokens are dropped.
//! For each document the index keeps its length (number of tokens) and the
//! count of each term; globally it keeps the number of documents, the sum of
//! their lengths and, per term, how many documents contain it. The scoring
//! formula itself works on floating point and is not part of this module.
use crate::assoc::{
    has_key, keys_distinct, lemma_to_map_dom, lemma_to_map_index, lemma_to_map_push,
    lemma_to_map_len, lemma_to_map_remove, lemma_to_map_update, to_map,
};
use crate::text::whitespace_words;
use vstd::prelude::*;

verus! {

// ─── Tokenization ───────────────────────────────────────────────────

/// The lowercase form of `s` as `str::to_lowercase` computes it.
pub uninterp spec fn lowercase_of(s: Seq<char>) -> Seq<char>;

/// Calls `str::split_whitespace` and copies each word into a `String`:
/// the maximal runs of non-whitespace characters, in order.
#[verifier::external_body]
fn split_words(text: &str) -> (words: Vec<String>)
    ensures
        string_views(words@) == whitespace_words(text@),
{
    text.split_whitespace().map(String::from).collect()
}

/// Calls `str::to_lowercase`; the result is named `lowercase_of(s)`.
#[verifier::external_body]
pub(crate) fn to_lower(s: &String) -> (l: String)
    ensures
        l@ == lowercase_of(s@),
{
    s.to_lowercase()
}

/// The character sequences of a list of strings.
pub open spec fn string_views(v: Seq<String>) -> Seq<Seq<char>> {
    v.map_values(|s: String| s@)
}

/// Lowercases every word and keeps the non-empty results, in order.
pub open spec fn lower_nonempty(words: Seq<Seq<char>>) -> Seq<Seq<char>>
    decreases words.len(),
{
    if words.len() == 0 {
        Seq::empty()
    } else {
        let prev = lower_nonempty(words.drop_last());
        let w = lowercase_of(words.last());
        if w.len() > 0 {
            prev.push(w)
        } else {
            prev
        }
    }
}

/// The tokens of a text: its whitespace-separated words, lowercased, empty
/// ones dropped.
pub open spec fn tokens_of(text: Seq<char>) -> Seq<Seq<char>> {
    lower_nonempty(whitespace_words(text))
}

/// Splits `text` on whitespace, lowercases, drops empty tokens.
pub fn tokenize(text: &str) -> (tokens: Vec<String>)
    ensures
        string_views(tokens@) == tokens_of(text@),
{
    let words = split_words(text);
    let ghost wv = string_views(words@);
    let mut out: Vec<String> = Vec::new();
    let mut i: usize = 0;
    while i < words.len()
        invariant
            i <= words.len(),
            wv == string_views(words@),
            string_views(out@) == lower_nonempty(wv.take(i as int)),
        decreases words.len() - i,
    {
        let w = to_lower(&words[i]);
        proof {
            assert(wv.take(i + 1).drop_last() =~= wv.take(i as int));
            assert(wv.take(i + 1).last() == words@[i as int]@);
        }
        if !w.as_str().is_empty() {
            out.push(w);
            proof {
                assert(string_views(out@) =~= lower_nonempty(wv.take(i as int)).push(w@));
            }
        }
        i += 1;
    }
    proof {
        assert(wv.take(words.len() as int) =~= wv);
    }
    out
}

// ─── Term counts ────────────────────────────────────────────────────

/// How many times `t` occurs in `toks`.
pub open spec fn count_in(toks: Seq<Seq<char>>, t: Seq<char>) -> nat
    decreases toks.len(),
{
    if toks.len() == 0 {
        0
    } else {
        count_in(toks.drop_last(), t) + if toks.last() == t {
            1nat
        } else {
            0nat
        }
    }
}

/// Term → number of occurrences, over the terms that occur.
pub open spec fn term_counts(toks: Seq<Seq<char>>) -> Map<Seq<char>, nat> {
    Map::new(|t: Seq<char>| toks.contains(t), |t: Seq<char>| count_in(toks, t))
}

/// A term and a count.
pub struct TermCount {
    pub term: String,
    pub count: u64,
}

/// The (term, count) pairs of a list of `TermCount`s.
pub open spec fn tc_pairs(v: Seq<TermCount>) -> Seq<(Seq<char>, nat)> {
    v.map_values(|c: TermCount| (c.term@, c.count as nat))
}

proof fn lemma_count_in_le(toks: Seq<Seq<char>>, t: Seq<char>)
    ensures
        count_in(toks, t) <= toks.len(),
    decreases toks.len(),
{
    if toks.len() > 0 {
        lemma_count_in_le(toks.drop_last(), t);
    }
}

fn find_term(v: &Vec<TermCount>, t: &String) -> (r: Option<usize>)
    ensures
        match r {
            Some(j) => j < v.len() && v@[j as int].term@ == t@,
            None => forall|j: int| 0 <= j < v.len() ==> v@[j].term@ != t@,
        },
{
    let mut j: usize = 0;
    while j < v.len()
        invariant
            j <= v.len(),
            forall|k: int| 0 <= k < j ==> v@[k].term@ != t@,
        decreases v.len() - j,
    {
        if v[j].term == *t {
            return Some(j);
        }
        j += 1;
    }
    None
}

/// Counts the occurrences of each distinct token.
pub fn term_freqs(tokens: &Vec<String>) -> (freqs: Vec<TermCount>)
    ensures
        keys_distinct(tc_pairs(freqs@)),
        to_map(tc_pairs(freqs@)) == term_counts(string_views(tokens@)),
{
    let ghost tv = string_views(tokens@);
    let mut freqs: Vec<TermCount> = Vec::new();
    let mut i: usize = 0;
    while i < tokens.len()
        invariant
            i <= tokens.len(),
            tv == string_views(tokens@),
            keys_distinct(tc_pairs(freqs@)),
            to_map(tc_pairs(freqs@)) =~= term_counts(tv.take(i as int)),
        decreases tokens.len() - i,
    {
        let ghost prev = tv.take(i as int);
        let ghost next = tv.take(i + 1);
        let ghost t = tokens@[i as int]@;
        proof {
            assert(next.drop_last() =~= prev);
            assert(next.last() == t);
            lemma_to_map_dom(tc_pairs(freqs@));
        }
        match find_term(&freqs, &tokens[i]) {
            Some(j) => {
                let ghost p = tc_pairs(freqs@);
                proof {
                    assert(p[j as int].0 == t);
                    lemma_to_map_index(p, j as int);
                    lemma_count_in_le(prev, t);
                }
                let c = freqs[j].count;
                let tc = TermCount { term: tokens[i].clone(), count: c + 1 };
                freqs.set(j, tc);
                proof {
                    assert(tc_pairs(freqs@) =~= p.update(j as int, (p[j as int].0, (c + 1) as nat)));
                    lemma_to_map_update(p, j as int, (c + 1) as nat);
                    assert forall|u: Seq<char>| #[trigger] next.contains(u) <==> prev.contains(u) || u == t by {
                        if next.contains(u) {
                            let k = choose|k: int| 0 <= k < next.len() && next[k] == u;
                            if k < prev.len() {
                                assert(prev[k] == u);
                            }
                        }
                        if prev.contains(u) {
                            let k = choose|k: int| 0 <= k < prev.len() && prev[k] == u;
                            assert(next[k] == u);
                        }
                        assert(next[next.len() - 1] == t);
                    }
                    assert(to_map(tc_pairs(freqs@)) =~= term_counts(next));
                }
            },
            None => {
                let ghost p = tc_pairs(freqs@);
                proof {
                    assert(!has_key(p, t)) by {
                        if has_key(p, t) {
                            let k = choose|k: int| 0 <= k < p.len() && p[k].0 == t;
                            assert(freqs@[k].term@ == t);
                        }
                    }
                    assert(!to_map(p).contains_key(t));
                    assert(!term_counts(prev).contains_key(t));
                    assert(!prev.contains(t));
                    assert(count_in(prev, t) == 0) by {
                        lemma_count_zero(prev, t);
                    }
                }
                let tc = TermCount { term: tokens[i].clone(), count: 1 };
                freqs.push(tc);
                proof {
                    assert(tc_pairs(freqs@) =~= p.push((t, 1nat)));
                    lemma_to_map_push(p, t, 1nat);
                    assert forall|u: Seq<char>| #[trigger] next.contains(u) <==> prev.contains(u) || u == t by {
                        if next.contains(u) {
                            let k = choose|k: int| 0 <= k < next.len() && next[k] == u;
                            if k < prev.len() {
                                assert(prev[k] == u);
                            }
                        }
                        if prev.contains(u) {
                            let k = choose|k: int| 0 <= k < prev.len() && prev[k] == u;
                            assert(next[k] == u);
                        }
                        assert(next[next.len() - 1] == t);
                    }
                    assert(to_map(tc_pairs(freqs@)) =~= term_counts(next));
                }
            },
        }
        i += 1;
    }
    proof {
        assert(tv.take(tokens.len() as int) =~= tv);
    }
    freqs
}

proof fn lemma_count_zero(toks: Seq<Seq<char>>, t: Seq<char>)
    requires
        !toks.contains(t),
    ensures
        count_in(toks, t) == 0,
    decreases toks.len(),
{
    if toks.len() > 0 {
        let p = toks.drop_last();
        assert(!p.contains(t)) by {
            if p.contains(t) {
                let k = choose|k: int| 0 <= k < p.len() && p[k] == t;
                assert(toks[k] == t);
            }
        }
        lemma_count_zero(p, t);
        assert(toks[toks.len() - 1] != t);
    }
}

} // verus!

verus! {

// ─── BM25Index ──────────────────────────────────────────────────────

/// What the index knows of one document: its number of tokens and the
/// count of each of its terms.
pub struct DocStats {
    pub len: nat,
    pub freqs: Map<Seq<char>, nat>,
}

/// The statistics of the token sequence `toks`.
pub open spec fn stats_of(toks: Seq<Seq<char>>) -> DocStats {
    DocStats { len: toks.len(), freqs: term_counts(toks) }
}

struct DocEntry {
    id: String,
    len: u64,
    freqs: Vec<TermCount>,
}

struct DfEntry {
    term: String,
    docs: u64,
}

/// In-memory BM25 index.
///
/// Keeps, per document, its length and term counts; globally, the number
/// of documents, the sum of their lengths and each term's document
/// frequency.
pub struct BM25Index {
    docs: Vec<DocEntry>,
    doc_freq: Vec<DfEntry>,
    n: u64,
    total_len: u128,
}

spec fn entry_stats(e: DocEntry) -> DocStats {
    DocStats { len: e.len as nat, freqs: to_map(tc_pairs(e.freqs@)) }
}

spec fn entry_pairs(s: Seq<DocEntry>) -> Seq<(Seq<char>, DocStats)> {
    s.map_values(|e: DocEntry| (e.id@, entry_stats(e)))
}

spec fn df_pairs(s: Seq<DfEntry>) -> Seq<(Seq<char>, nat)> {
    s.map_values(|e: DfEntry| (e.term@, e.docs as nat))
}

spec fn doc_has(e: DocEntry, t: Seq<char>) -> bool {
    has_key(tc_pairs(e.freqs@), t)
}

spec fn df_count(s: Seq<DocEntry>, t: Seq<char>) -> nat
    decreases s.len(),
{
    if s.len() == 0 {
        0
    } else {
        df_count(s.drop_last(), t) + if doc_has(s.last(), t) {
            1nat
        } else {
            0nat
        }
    }
}

spec fn len_sum(s: Seq<DocEntry>) -> nat
    decreases s.len(),
{
    if s.len() == 0 {
        0
    } else {
        len_sum(s.drop_last()) + s.last().len as nat
    }
}

proof fn lemma_df_remove(s: Seq<DocEntry>, i: int, t: Seq<char>)
    requires
        0 <= i < s.len(),
    ensures
        df_count(s.remove(i), t) + (if doc_has(s[i], t) { 1nat } else { 0nat }) == df_count(s, t),
        len_sum(s.remove(i)) + s[i].len == len_sum(s),
    decreases s.len(),
{
    if i == s.len() - 1 {
        assert(s.remove(i) =~= s.drop_last());
    } else {
        let p = s.drop_last();
        lemma_df_remove(p, i, t);
        assert(s.remove(i).drop_last() =~= p.remove(i));
        assert(s.remove(i).last() == s.last());
    }
}

proof fn lemma_df_le(s: Seq<DocEntry>, t: Seq<char>)
    ensures
        df_count(s, t) <= s.len(),
        len_sum(s) <= s.len() * 0xffff_ffff_ffff_ffffnat,
    decreases s.len(),
{
    if s.len() > 0 {
        lemma_df_le(s.drop_last(), t);
        assert(len_sum(s) <= s.len() * 0xffff_ffff_ffff_ffffnat) by (nonlinear_arith)
            requires
                len_sum(s) == len_sum(s.drop_last()) + s.last().len,
                len_sum(s.drop_last()) <= (s.len() - 1) * 0xffff_ffff_ffff_ffffnat,
                s.last().len <= 0xffff_ffff_ffff_ffffnat,
        ;
    }
}

proof fn lemma_df_absent(s: Seq<DocEntry>, t: Seq<char>)
    requires
        forall|i: int| 0 <= i < s.len() ==> !doc_has(#[trigger] s[i], t),
    ensures
        df_count(s, t) == 0,
    decreases s.len(),
{
    if s.len() > 0 {
        let p = s.drop_last();
        assert forall|i: int| 0 <= i < p.len() implies !doc_has(#[trigger] p[i], t) by {
            assert(p[i] == s[i]);
        }
        lemma_df_absent(p, t);
        assert(!doc_has(s[s.len() - 1], t));
    }
}

fn find_df(v: &Vec<DfEntry>, t: &String) -> (r: Option<usize>)
    ensures
        match r {
            Some(j) => j < v.len() && v@[j as int].term@ == t@,
            None => forall|j: int| 0 <= j < v.len() ==> v@[j].term@ != t@,
        },
{
    let mut j: usize = 0;
    while j < v.len()
        invariant
            j <= v.len(),
            forall|k: int| 0 <= k < j ==> v@[k].term@ != t@,
        decreases v.len() - j,
    {
        if v[j].term == *t {
            return Some(j);
        }
        j += 1;
    }
    None
}

/// Some entry of `v` from position `k` on has term `t`.
spec fn pending(v: Seq<TermCount>, k: int, t: Seq<char>) -> bool {
    exists|m: int| k <= m < v.len() && #[trigger] v[m].term@ == t
}

proof fn lemma_pending_start(v: Seq<TermCount>, t: Seq<char>)
    ensures
        pending(v, 0, t) == has_key(tc_pairs(v), t),
{
    if pending(v, 0, t) {
        let m = choose|m: int| 0 <= m < v.len() && #[trigger] v[m].term@ == t;
        assert(tc_pairs(v)[m].0 == t);
    }
    if has_key(tc_pairs(v), t) {
        let m = choose|m: int| 0 <= m < tc_pairs(v).len() && tc_pairs(v)[m].0 == t;
        assert(v[m].term@ == t);
    }
}

proof fn lemma_pending_step(v: Seq<TermCount>, k: int, t: Seq<char>)
    requires
        keys_distinct(tc_pairs(v)),
        0 <= k < v.len(),
    ensures
        t == v[k].term@ ==> pending(v, k, t) && !pending(v, k + 1, t),
        t != v[k].term@ ==> pending(v, k, t) == pending(v, k + 1, t),
{
    if t == v[k].term@ {
        assert(v[k].term@ == t);
        if pending(v, k + 1, t) {
            let m = choose|m: int| k + 1 <= m < v.len() && #[trigger] v[m].term@ == t;
            assert(tc_pairs(v)[m].0 == tc_pairs(v)[k].0);
        }
    } else {
        if pending(v, k, t) {
            let m = choose|m: int| k <= m < v.len() && #[trigger] v[m].term@ == t;
            assert(m != k);
        }
    }
}

/// The ids of the documents of `m` that contain term `t`.
pub open spec fn docs_with_term(m: Map<Seq<char>, DocStats>, t: Seq<char>) -> Set<Seq<char>> {
    m.dom().filter(|id: Seq<char>| m[id].freqs.contains_key(t))
}

proof fn lemma_df_card(s: Seq<DocEntry>, t: Seq<char>)
    requires
        keys_distinct(entry_pairs(s)),
    ensures
        docs_with_term(to_map(entry_pairs(s)), t).finite(),
        df_count(s, t) == docs_with_term(to_map(entry_pairs(s)), t).len(),
    decreases s.len(),
{
    let m = to_map(entry_pairs(s));
    lemma_to_map_dom(entry_pairs(s));
    m.dom().lemma_len_filter(|id: Seq<char>| m[id].freqs.contains_key(t));
    if s.len() == 0 {
        assert(docs_with_term(m, t) =~= Set::empty());
    } else {
        let p = s.drop_last();
        let e = s.last();
        assert(entry_pairs(s).drop_last() =~= entry_pairs(p));
        assert(keys_distinct(entry_pairs(p)));
        lemma_df_card(p, t);
        let mp = to_map(entry_pairs(p));
        lemma_to_map_dom(entry_pairs(p));
        assert(!mp.contains_key(e.id@)) by {
            if has_key(entry_pairs(p), e.id@) {
                let k = choose|k: int| 0 <= k < entry_pairs(p).len() && entry_pairs(p)[k].0 == e.id@;
                assert(entry_pairs(s)[k].0 == entry_pairs(s)[s.len() - 1].0);
            }
        }
        assert(m == mp.insert(e.id@, entry_stats(e)));
        lemma_to_map_dom(tc_pairs(e.freqs@));
        let fp = docs_with_term(mp, t);
        if doc_has(e, t) {
            assert(docs_with_term(m, t) =~= fp.insert(e.id@));
        } else {
            assert(docs_with_term(m, t) =~= fp);
        }
    }
}

impl BM25Index {
    /// The indexed documents: id → statistics.
    pub closed spec fn view(&self) -> Map<Seq<char>, DocStats> {
        to_map(entry_pairs(self.docs@))
    }

    /// The index's internal bookkeeping is consistent: ids are unique, and
    /// the document count, the length sum and each term's document
    /// frequency agree with the documents held.
    pub closed spec fn wf(&self) -> bool {
        &&& keys_distinct(entry_pairs(self.docs@))
        &&& forall|i: int|
            0 <= i < self.docs@.len() ==> keys_distinct(tc_pairs(#[trigger] self.docs@[i].freqs@))
        &&& self.n == self.docs@.len()
        &&& self.total_len == len_sum(self.docs@)
        &&& keys_distinct(df_pairs(self.doc_freq@))
        &&& forall|j: int|
            0 <= j < self.doc_freq@.len() ==> (#[trigger] self.doc_freq@[j]).docs == df_count(
                self.docs@,
                self.doc_freq@[j].term@,
            )
        &&& forall|i: int, t: Seq<char>|
            0 <= i < self.docs@.len() && #[trigger] doc_has(self.docs@[i], t) ==> has_key(
                df_pairs(self.doc_freq@),
                t,
            )
    }

    /// Creates an empty index.
    pub fn new() -> (index: Self)
        ensures
            index.wf(),
            index@ == Map::<Seq<char>, DocStats>::empty(),
            index.total_length() == 0,
    {
        let index = BM25Index { docs: Vec::new(), doc_freq: Vec::new(), n: 0, total_len: 0 };
        proof {
            assert(entry_pairs(index.docs@) =~= Seq::empty());
        }
        index
    }

    fn find_doc(&self, id: &String) -> (r: Option<usize>)
        ensures
            match r {
                Some(i) => i < self.docs.len() && self.docs@[i as int].id@ == id@,
                None => forall|i: int| 0 <= i < self.docs.len() ==> self.docs@[i].id@ != id@,
            },
    {
        let mut i: usize = 0;
        while i < self.docs.len()
            invariant
                i <= self.docs.len(),
                forall|k: int| 0 <= k < i ==> self.docs@[k].id@ != id@,
            decreases self.docs.len() - i,
        {
            if self.docs[i].id == *id {
                return Some(i);
            }
            i += 1;
        }
        None
    }

    /// Takes the document `id` out of the index, if it is there.
    fn detach(&mut self, id: &String)
        requires
            old(self).wf(),
        ensures
            final(self).wf(),
            final(self)@ == old(self)@.remove(id@),
            forall|i: int| 0 <= i < final(self).docs@.len() ==> final(self).docs@[i].id@ != id@,
            final(self).total_length() + (if old(self)@.contains_key(id@) {
                old(self)@[id@].len
            } else {
                0
            }) == old(self).total_length(),
    {
        let ghost od = self.docs@;
        proof {
            lemma_to_map_dom(entry_pairs(od));
        }
        match self.find_doc(id) {
            None => {
                proof {
                    assert(!has_key(entry_pairs(od), id@)) by {
                        if has_key(entry_pairs(od), id@) {
                            let k = choose|k: int|
                                0 <= k < entry_pairs(od).len() && entry_pairs(od)[k].0 == id@;
                            assert(od[k].id@ == id@);
                        }
                    }
                    assert(self@ =~= old(self)@.remove(id@));
                }
            },
            Some(i) => {
                let entry = self.docs.remove(i);
                proof {
                    lemma_df_remove(od, i as int, Seq::empty());
                    assert(entry_pairs(self.docs@) =~= entry_pairs(od).remove(i as int));
                    lemma_to_map_remove(entry_pairs(od), i as int);
                    assert(entry_pairs(od)[i as int].0 == id@);
                    assert(keys_distinct(tc_pairs(entry.freqs@)));
                    assert forall|k: int| 0 <= k < self.docs@.len() implies self.docs@[k].id@ != id@ by {
                        let ok = if k < i { k } else { k + 1 };
                        assert(self.docs@[k] == od[ok]);
                        assert(entry_pairs(od)[ok].0 != entry_pairs(od)[i as int].0);
                    }
                }
                self.n = self.n - 1;
                self.total_len = self.total_len - entry.len as u128;
                let ghost nd = self.docs@;
                proof {
                    lemma_df_remove(od, i as int, Seq::empty());
                    assert forall|j: int| 0 <= j < self.doc_freq@.len() implies (#[trigger] self.doc_freq@[j]).docs == df_count(nd, self.doc_freq@[j].term@) + (
                    if pending(entry.freqs@, 0, self.doc_freq@[j].term@) {
                        1nat
                    } else {
                        0nat
                    }) by {
                        lemma_df_remove(od, i as int, self.doc_freq@[j].term@);
                        lemma_pending_start(entry.freqs@, self.doc_freq@[j].term@);
                    }
                    assert forall|m: int| 0 <= m < entry.freqs@.len() implies has_key(
                        df_pairs(self.doc_freq@),
                        #[trigger] entry.freqs@[m].term@,
                    ) by {
                        assert(tc_pairs(entry.freqs@)[m].0 == entry.freqs@[m].term@);
                        assert(doc_has(od[i as int], entry.freqs@[m].term@));
                    }
                }
                let mut k: usize = 0;
                while k < entry.freqs.len()
                    invariant
                        k <= entry.freqs.len(),
                        self.docs@ == nd,
                        (i as int) < od.len(),
                        self.n == nd.len(),
                        self.total_len == len_sum(nd),
                        nd == od.remove(i as int),
                        entry == od[i as int],
                        keys_distinct(tc_pairs(entry.freqs@)),
                        keys_distinct(df_pairs(self.doc_freq@)),
                        self.doc_freq@.len() == old(self).doc_freq@.len(),
                        forall|j: int|
                            0 <= j < self.doc_freq@.len() ==> (#[trigger] self.doc_freq@[j]).term@
                                == old(self).doc_freq@[j].term@,
                        forall|j: int|
                            0 <= j < self.doc_freq@.len() ==> (#[trigger] self.doc_freq@[j]).docs == df_count(nd, self.doc_freq@[j].term@) + (
                            if pending(entry.freqs@, k as int, self.doc_freq@[j].term@) {
                                1nat
                            } else {
                                0nat
                            }),
                        forall|m: int|
                            k <= m < entry.freqs@.len() ==> has_key(
                                df_pairs(self.doc_freq@),
                                #[trigger] entry.freqs@[m].term@,
                            ),
                    decreases entry.freqs.len() - k,
                {
                    let ghost u = entry.freqs@[k as int].term@;
                    match find_df(&self.doc_freq, &entry.freqs[k].term) {
                        None => {
                            proof {
                                let p = df_pairs(self.doc_freq@);
                                let q = choose|q: int| 0 <= q < p.len() && p[q].0 == u;
                                assert(self.doc_freq@[q].term@ == u);
                            }
                        },
                        Some(j) => {
                            let ghost before = self.doc_freq@;
                            proof {
                                lemma_pending_step(entry.freqs@, k as int, u);
                            }
                            let d = self.doc_freq[j].docs;
                            let e = DfEntry { term: entry.freqs[k].term.clone(), docs: d - 1 };
                            self.doc_freq.set(j, e);
                            proof {
                                let p = df_pairs(before);
                                assert(df_pairs(self.doc_freq@) =~= p.update(
                                    j as int,
                                    (p[j as int].0, (d - 1) as nat),
                                ));
                                lemma_to_map_update(p, j as int, (d - 1) as nat);
                                assert forall|q: int| 0 <= q < self.doc_freq@.len() implies (#[trigger] self.doc_freq@[q]).docs == df_count(nd, self.doc_freq@[q].term@) + (
                                if pending(entry.freqs@, k + 1, self.doc_freq@[q].term@) {
                                    1nat
                                } else {
                                    0nat
                                }) by {
                                    lemma_pending_step(entry.freqs@, k as int, self.doc_freq@[q].term@);
                                    assert(before[q].docs == df_count(nd, before[q].term@) + (if pending(entry.freqs@, k as int, before[q].term@) { 1nat } else { 0nat }));
                                    if q != j {
                                        assert(df_pairs(before)[q].0 == before[q].term@);
                                        assert(df_pairs(before)[j as int].0 == before[j as int].term@);
                                        assert(self.doc_freq@[q] == before[q]);
                                    } else {
                                        assert(self.doc_freq@[q].term@ == u);
                                    }
                                }
                                assert forall|m: int| k + 1 <= m < entry.freqs@.len() implies has_key(
                                    df_pairs(self.doc_freq@),
                                    #[trigger] entry.freqs@[m].term@,
                                ) by {
                                    let t = entry.freqs@[m].term@;
                                    assert(has_key(df_pairs(before), t));
                                    let q = choose|q: int| 0 <= q < df_pairs(before).len() && df_pairs(before)[q].0 == t;
                                    assert(df_pairs(self.doc_freq@)[q].0 == t);
                                }
                            }
                        },
                    }
                    k += 1;
                }
                proof {
                    assert forall|j: int| 0 <= j < self.doc_freq@.len() implies (#[trigger] self.doc_freq@[j]).docs == df_count(
                        self.docs@,
                        self.doc_freq@[j].term@,
                    ) by {
                        if pending(entry.freqs@, k as int, self.doc_freq@[j].term@) {
                            let m = choose|m: int| k <= m < entry.freqs@.len() && #[trigger] entry.freqs@[m].term@ == self.doc_freq@[j].term@;
                        }
                    }
                    assert forall|a: int, t: Seq<char>|
                        0 <= a < self.docs@.len() && #[trigger] doc_has(self.docs@[a], t) implies has_key(
                            df_pairs(self.doc_freq@),
                            t,
                        ) by {
                        let oa = if a < i { a } else { a + 1 };
                        assert(self.docs@[a] == od[oa]);
                        assert(has_key(df_pairs(old(self).doc_freq@), t));
                        let q = choose|q: int| 0 <= q < df_pairs(old(self).doc_freq@).len() && df_pairs(old(self).doc_freq@)[q].0 == t;
                        assert(df_pairs(self.doc_freq@)[q].0 == t);
                    }
                    assert forall|a: int| 0 <= a < self.docs@.len() implies keys_distinct(tc_pairs(#[trigger] self.docs@[a].freqs@)) by {
                        let oa = if a < i { a } else { a + 1 };
                        assert(self.docs@[a] == od[oa]);
                    }
                    lemma_df_remove(od, i as int, Seq::empty());
                    assert(entry_pairs(nd) =~= entry_pairs(od).remove(i as int));
                    lemma_to_map_remove(entry_pairs(od), i as int);
                    assert(keys_distinct(entry_pairs(self.docs@)));
                    assert(self.n == self.docs@.len());
                    assert(self.total_len == len_sum(self.docs@));
                    assert(keys_distinct(df_pairs(self.doc_freq@)));
                    lemma_to_map_index(entry_pairs(od), i as int);
                }
            },
        }
    }

    /// Indexes or re-indexes document `id`. A text without tokens (empty or
    /// only whitespace) leaves the document out of the index.
    pub fn index_document(&mut self, id: &str, text: &str)
        requires
            old(self).wf(),
        ensures
            final(self).wf(),
            final(self)@ == indexed(old(self)@, id@, text@),
            final(self).total_length() + (if old(self)@.contains_key(id@) {
                old(self)@[id@].len
            } else {
                0
            }) == old(self).total_length() + tokens_of(text@).len(),
    {
        let tokens = tokenize(text);
        self.index_tokens(id, &tokens);
    }

    /// Indexes or re-indexes document `id` as the token sequence `tokens`
    /// (as `tokenize` gives them); no tokens leaves the document out.
    pub fn index_tokens(&mut self, id: &str, tokens: &Vec<String>)
        requires
            old(self).wf(),
        ensures
            final(self).wf(),
            final(self)@ == indexed_tokens(old(self)@, id@, string_views(tokens@)),
            final(self).total_length() + (if old(self)@.contains_key(id@) {
                old(self)@[id@].len
            } else {
                0
            }) == old(self).total_length() + tokens@.len(),
    {
        let id = id.to_owned();
        self.detach(&id);
        if tokens.len() == 0 {
            proof {
                assert(string_views(tokens@).len() == tokens@.len());
            }
            return;
        }
        let freqs = term_freqs(tokens);
        let len = tokens.len() as u64;
        let entry = DocEntry { id, len, freqs };
        let ghost before = self.docs@;
        let ghost bdf = self.doc_freq@;
        let ghost e = entry;
        proof {
            lemma_df_le(before, Seq::empty());
            assert(!has_key(entry_pairs(before), e.id@)) by {
                if has_key(entry_pairs(before), e.id@) {
                    let k = choose|k: int| 0 <= k < entry_pairs(before).len() && entry_pairs(before)[k].0 == e.id@;
                    assert(before[k].id@ == e.id@);
                }
            }
        }
        self.docs.push(entry);
        let ghost nd = self.docs@;
        let count = self.docs.len();
        proof {
            assert(count == before.len() + 1);
            assert(count <= 0xffff_ffff_ffff_ffffnat);
            assert(nd.drop_last() =~= before);
            assert(entry_pairs(nd) =~= entry_pairs(before).push((e.id@, entry_stats(e))));
            lemma_to_map_push(entry_pairs(before), e.id@, entry_stats(e));
            assert(self.total_len + len <= 0xffff_ffff_ffff_ffff_ffff_ffff_ffff_ffffnat) by (nonlinear_arith)
                requires
                    self.total_len <= before.len() * 0xffff_ffff_ffff_ffffnat,
                    len <= 0xffff_ffff_ffff_ffffnat,
                    before.len() + 1 <= 0xffff_ffff_ffff_ffffnat,
            ;
        }
        self.n = self.n + 1;
        self.total_len = self.total_len + len as u128;
        let last = count - 1;
        let nf = self.docs[last].freqs.len();
        proof {
            assert forall|j: int| 0 <= j < self.doc_freq@.len() implies (#[trigger] self.doc_freq@[j]).docs + (
            if pending(e.freqs@, 0, self.doc_freq@[j].term@) {
                1nat
            } else {
                0nat
            }) == df_count(nd, self.doc_freq@[j].term@) by {
                lemma_pending_start(e.freqs@, self.doc_freq@[j].term@);
            }
        }
        let mut k: usize = 0;
        while k < nf
            invariant
                k <= nf,
                nf == e.freqs@.len(),
                last == nd.len() - 1,
                nd.last() == e,
                nd.drop_last() == before,
                self.docs@ == nd,
                self.n == nd.len(),
                self.total_len == len_sum(nd),
                keys_distinct(tc_pairs(e.freqs@)),
                keys_distinct(df_pairs(self.doc_freq@)),
                forall|j: int|
                    0 <= j < self.doc_freq@.len() ==> (#[trigger] self.doc_freq@[j]).docs + (
                    if pending(e.freqs@, k as int, self.doc_freq@[j].term@) {
                        1nat
                    } else {
                        0nat
                    }) == df_count(nd, self.doc_freq@[j].term@),
                forall|a: int, t: Seq<char>|
                    0 <= a < before.len() && #[trigger] doc_has(before[a], t) ==> has_key(
                        df_pairs(self.doc_freq@),
                        t,
                    ),
                forall|m: int|
                    0 <= m < k ==> has_key(df_pairs(self.doc_freq@), #[trigger] e.freqs@[m].term@),
            decreases nf - k,
        {
            let t = self.docs[last].freqs[k].term.clone();
            let ghost u = t@;
            let ghost pre = self.doc_freq@;
            proof {
                lemma_pending_step(e.freqs@, k as int, u);
                lemma_df_le(nd, u);
            }
            match find_df(&self.doc_freq, &t) {
                Some(j) => {
                    let d = self.doc_freq[j].docs;
                    proof {
                        assert(pre[j as int].docs + 1 == df_count(nd, u));
                    }
                    self.doc_freq.set(j, DfEntry { term: t, docs: d + 1 });
                    proof {
                        let p = df_pairs(pre);
                        assert(df_pairs(self.doc_freq@) =~= p.update(j as int, (p[j as int].0, (d + 1) as nat)));
                        lemma_to_map_update(p, j as int, (d + 1) as nat);
                        assert forall|q: int| 0 <= q < self.doc_freq@.len() implies (#[trigger] self.doc_freq@[q]).docs + (
                        if pending(e.freqs@, k + 1, self.doc_freq@[q].term@) {
                            1nat
                        } else {
                            0nat
                        }) == df_count(nd, self.doc_freq@[q].term@) by {
                            lemma_pending_step(e.freqs@, k as int, self.doc_freq@[q].term@);
                            assert(pre[q].docs + (if pending(e.freqs@, k as int, pre[q].term@) { 1nat } else { 0nat }) == df_count(nd, pre[q].term@));
                            if q != j {
                                assert(p[q].0 == pre[q].term@);
                                assert(p[j as int].0 == pre[j as int].term@);
                                assert(self.doc_freq@[q] == pre[q]);
                            }
                        }
                        assert forall|a: int, w: Seq<char>|
                            0 <= a < before.len() && #[trigger] doc_has(before[a], w) implies has_key(df_pairs(self.doc_freq@), w) by {
                            let q = choose|q: int| 0 <= q < p.len() && p[q].0 == w;
                            assert(df_pairs(self.doc_freq@)[q].0 == w);
                        }
                        assert forall|m: int| 0 <= m < k + 1 implies has_key(df_pairs(self.doc_freq@), #[trigger] e.freqs@[m].term@) by {
                            if m < k {
                                let w = e.freqs@[m].term@;
                                let q = choose|q: int| 0 <= q < p.len() && p[q].0 == w;
                                assert(df_pairs(self.doc_freq@)[q].0 == w);
                            } else {
                                assert(df_pairs(self.doc_freq@)[j as int].0 == u);
                            }
                        }
                    }
                },
                None => {
                    proof {
                        assert forall|a: int| 0 <= a < before.len() implies !doc_has(#[trigger] before[a], u) by {
                            if doc_has(before[a], u) {
                                let q = choose|q: int| 0 <= q < df_pairs(pre).len() && df_pairs(pre)[q].0 == u;
                                assert(pre[q].term@ == u);
                            }
                        }
                        lemma_df_absent(before, u);
                        assert(doc_has(e, u)) by {
                            assert(tc_pairs(e.freqs@)[k as int].0 == u);
                        }
                        assert(df_count(nd, u) == 1);
                        assert(!has_key(df_pairs(pre), u)) by {
                            if has_key(df_pairs(pre), u) {
                                let q = choose|q: int| 0 <= q < df_pairs(pre).len() && df_pairs(pre)[q].0 == u;
                                assert(pre[q].term@ == u);
                            }
                        }
                    }
                    self.doc_freq.push(DfEntry { term: t, docs: 1 });
                    proof {
                        let p = df_pairs(pre);
                        assert(df_pairs(self.doc_freq@) =~= p.push((u, 1nat)));
                        lemma_to_map_push(p, u, 1nat);
                        assert forall|q: int| 0 <= q < self.doc_freq@.len() implies (#[trigger] self.doc_freq@[q]).docs + (
                        if pending(e.freqs@, k + 1, self.doc_freq@[q].term@) {
                            1nat
                        } else {
                            0nat
                        }) == df_count(nd, self.doc_freq@[q].term@) by {
                            lemma_pending_step(e.freqs@, k as int, self.doc_freq@[q].term@);
                            if q < pre.len() {
                                assert(self.doc_freq@[q] == pre[q]);
                                assert(pre[q].docs + (if pending(e.freqs@, k as int, pre[q].term@) { 1nat } else { 0nat }) == df_count(nd, pre[q].term@));
                                assert(pre[q].term@ != u);
                            }
                        }
                        assert forall|a: int, w: Seq<char>|
                            0 <= a < before.len() && #[trigger] doc_has(before[a], w) implies has_key(df_pairs(self.doc_freq@), w) by {
                            let q = choose|q: int| 0 <= q < p.len() && p[q].0 == w;
                            assert(df_pairs(self.doc_freq@)[q].0 == w);
                        }
                        assert forall|m: int| 0 <= m < k + 1 implies has_key(df_pairs(self.doc_freq@), #[trigger] e.freqs@[m].term@) by {
                            if m < k {
                                let w = e.freqs@[m].term@;
                                let q = choose|q: int| 0 <= q < p.len() && p[q].0 == w;
                                assert(df_pairs(self.doc_freq@)[q].0 == w);
                            } else {
                                assert(df_pairs(self.doc_freq@)[pre.len() as int].0 == u);
                            }
                        }
                    }
                },
            }
            k += 1;
        }
        proof {
            assert forall|j: int| 0 <= j < self.doc_freq@.len() implies (#[trigger] self.doc_freq@[j]).docs == df_count(
                self.docs@,
                self.doc_freq@[j].term@,
            ) by {
                if pending(e.freqs@, k as int, self.doc_freq@[j].term@) {
                    let m = choose|m: int| k <= m < e.freqs@.len() && #[trigger] e.freqs@[m].term@ == self.doc_freq@[j].term@;
                }
            }
            assert forall|a: int, t: Seq<char>|
                0 <= a < self.docs@.len() && #[trigger] doc_has(self.docs@[a], t) implies has_key(
                    df_pairs(self.doc_freq@),
                    t,
                ) by {
                if a < before.len() {
                    assert(self.docs@[a] == before[a]);
                } else {
                    let m = choose|m: int| 0 <= m < tc_pairs(e.freqs@).len() && tc_pairs(e.freqs@)[m].0 == t;
                    assert(e.freqs@[m].term@ == t);
                }
            }
            assert forall|a: int| 0 <= a < self.docs@.len() implies keys_distinct(tc_pairs(#[trigger] self.docs@[a].freqs@)) by {
                if a < before.len() {
                    assert(self.docs@[a] == before[a]);
                }
            }
            assert(string_views(tokens@).len() == tokens@.len());
        }
    }

    /// Removes document `id` from the index, if it is there.
    pub fn remove_document(&mut self, id: &str)
        requires
            old(self).wf(),
        ensures
            final(self).wf(),
            final(self)@ == old(self)@.remove(id@),
            final(self).total_length() + (if old(self)@.contains_key(id@) {
                old(self)@[id@].len
            } else {
                0
            }) == old(self).total_length(),
    {
        let id = id.to_owned();
        self.detach(&id);
    }

    /// Number of indexed documents.
    pub fn len(&self) -> (n: usize)
        requires
            self.wf(),
        ensures
            n == self@.len(),
    {
        proof {
            lemma_to_map_len(entry_pairs(self.docs@));
        }
        self.docs.len()
    }

    /// Whether no document is indexed.
    pub fn is_empty(&self) -> (b: bool)
        requires
            self.wf(),
        ensures
            b == (self@.len() == 0),
    {
        proof {
            lemma_to_map_len(entry_pairs(self.docs@));
        }
        self.docs.len() == 0
    }

    /// The sum of the lengths of all indexed documents.
    pub closed spec fn total_length(&self) -> nat {
        self.total_len as nat
    }

    /// Number of indexed documents, as the index counts them.
    pub fn num_docs(&self) -> (n: u64)
        requires
            self.wf(),
        ensures
            n == self@.len(),
    {
        proof {
            lemma_to_map_len(entry_pairs(self.docs@));
        }
        self.n
    }

    /// Sum of the lengths (token counts) of all indexed documents.
    pub fn total_len(&self) -> (t: u128)
        ensures
            t == self.total_length(),
    {
        self.total_len
    }

    /// Number of indexed documents that contain `term`.
    pub fn document_frequency(&self, term: &str) -> (df: u64)
        requires
            self.wf(),
        ensures
            df == docs_with_term(self@, term@).len(),
    {
        let term = term.to_owned();
        proof {
            lemma_df_card(self.docs@, term@);
        }
        match find_df(&self.doc_freq, &term) {
            Some(j) => self.doc_freq[j].docs,
            None => {
                proof {
                    assert forall|a: int| 0 <= a < self.docs@.len() implies !doc_has(#[trigger] self.docs@[a], term@) by {
                        if doc_has(self.docs@[a], term@) {
                            let q = choose|q: int| 0 <= q < df_pairs(self.doc_freq@).len() && df_pairs(self.doc_freq@)[q].0 == term@;
                            assert(self.doc_freq@[q].term@ == term@);
                        }
                    }
                    lemma_df_absent(self.docs@, term@);
                }
                0
            },
        }
    }

    /// Length (number of tokens) of document `id`, if it is indexed.
    pub fn doc_length(&self, id: &str) -> (len: Option<u64>)
        requires
            self.wf(),
        ensures
            match len {
                Some(l) => self@.contains_key(id@) && l == self@[id@].len,
                None => !self@.contains_key(id@),
            },
    {
        let id = id.to_owned();
        proof {
            lemma_to_map_dom(entry_pairs(self.docs@));
        }
        match self.find_doc(&id) {
            Some(i) => {
                proof {
                    lemma_to_map_index(entry_pairs(self.docs@), i as int);
                }
                Some(self.docs[i].len)
            },
            None => {
                proof {
                    assert(!has_key(entry_pairs(self.docs@), id@)) by {
                        if has_key(entry_pairs(self.docs@), id@) {
                            let k = choose|k: int| 0 <= k < entry_pairs(self.docs@).len() && entry_pairs(self.docs@)[k].0 == id@;
                            assert(self.docs@[k].id@ == id@);
                        }
                    }
                }
                None
            },
        }
    }

    /// How many times `term` occurs in document `id` (0 when the document
    /// is not indexed or lacks the term).
    pub fn term_frequency(&self, id: &str, term: &str) -> (tf: u64)
        requires
            self.wf(),
        ensures
            tf == (if self@.contains_key(id@) && self@[id@].freqs.contains_key(term@) {
                self@[id@].freqs[term@]
            } else {
                0
            }),
    {
        let id = id.to_owned();
        let term = term.to_owned();
        proof {
            lemma_to_map_dom(entry_pairs(self.docs@));
        }
        match self.find_doc(&id) {
            Some(i) => {
                proof {
                    lemma_to_map_index(entry_pairs(self.docs@), i as int);
                    lemma_to_map_dom(tc_pairs(self.docs@[i as int].freqs@));
                }
                match find_term(&self.docs[i].freqs, &term) {
                    Some(j) => {
                        proof {
                            lemma_to_map_index(tc_pairs(self.docs@[i as int].freqs@), j as int);
                        }
                        self.docs[i].freqs[j].count
                    },
                    None => {
                        proof {
                            let p = tc_pairs(self.docs@[i as int].freqs@);
                            assert(!has_key(p, term@)) by {
                                if has_key(p, term@) {
                                    let k = choose|k: int| 0 <= k < p.len() && p[k].0 == term@;
                                    assert(self.docs@[i as int].freqs@[k].term@ == term@);
                                }
                            }
                        }
                        0
                    },
                }
            },
            None => {
                proof {
                    assert(!has_key(entry_pairs(self.docs@), id@)) by {
                        if has_key(entry_pairs(self.docs@), id@) {
                            let k = choose|k: int| 0 <= k < entry_pairs(self.docs@).len() && entry_pairs(self.docs@)[k].0 == id@;
                            assert(self.docs@[k].id@ == id@);
                        }
                    }
                }
                0
            },
        }
    }

    /// The ids of all indexed documents, each once.
    pub fn doc_ids(&self) -> (ids: Vec<String>)
        requires
            self.wf(),
        ensures
            ids@.len() == self@.len(),
            forall|i: int, j: int| 0 <= i < j < ids@.len() ==> ids@[i]@ != ids@[j]@,
            forall|k: Seq<char>| self@.contains_key(k) <==> exists|i: int| 0 <= i < ids@.len() && #[trigger] ids@[i]@ == k,
    {
        let mut ids: Vec<String> = Vec::new();
        let mut i: usize = 0;
        proof {
            lemma_to_map_dom(entry_pairs(self.docs@));
            lemma_to_map_len(entry_pairs(self.docs@));
        }
        while i < self.docs.len()
            invariant
                i <= self.docs@.len(),
                ids@.len() == i,
                forall|a: int| 0 <= a < i ==> #[trigger] ids@[a]@ == self.docs@[a].id@,
            decreases self.docs@.len() - i,
        {
            ids.push(self.docs[i].id.clone());
            i += 1;
        }
        proof {
            let p = entry_pairs(self.docs@);
            assert forall|a: int, b: int| 0 <= a < b < ids@.len() implies ids@[a]@ != ids@[b]@ by {
                assert(p[a].0 == ids@[a]@ && p[b].0 == ids@[b]@);
            }
            assert forall|k: Seq<char>| self@.contains_key(k) <==> exists|a: int| 0 <= a < ids@.len() && #[trigger] ids@[a]@ == k by {
                if self@.contains_key(k) {
                    let a = choose|a: int| 0 <= a < p.len() && p[a].0 == k;
                    assert(ids@[a]@ == k);
                }
                if exists|a: int| 0 <= a < ids@.len() && #[trigger] ids@[a]@ == k {
                    let a = choose|a: int| 0 <= a < ids@.len() && #[trigger] ids@[a]@ == k;
                    assert(p[a].0 == k);
                }
            }
        }
        ids
    }
}


/// Document `id` of `m` holds at least one token of query `q`.
pub open spec fn matches_query(m: Map<Seq<char>, DocStats>, id: Seq<char>, q: Seq<char>) -> bool {
    m.contains_key(id) && exists|t: Seq<char>|
        tokens_of(q).contains(t) && #[trigger] m[id].freqs.contains_key(t)
}

impl BM25Index {
    /// Whether document entry `i` holds one of `toks`.
    fn entry_matches(&self, i: usize, toks: &Vec<String>) -> (b: bool)
        requires
            self.wf(),
            i < self.docs@.len(),
        ensures
            b == exists|t: Seq<char>|
                string_views(toks@).contains(t) && #[trigger] self@[self.docs@[i as int].id@].freqs.contains_key(t),
    {
        let ghost e = self.docs@[i as int];
        proof {
            lemma_to_map_index(entry_pairs(self.docs@), i as int);
            lemma_to_map_dom(tc_pairs(e.freqs@));
            assert(self@[e.id@] == entry_stats(e));
        }
        let mut j: usize = 0;
        while j < toks.len()
            invariant
                j <= toks.len(),
                i < self.docs@.len(),
                e == self.docs@[i as int],
                self@[e.id@] == entry_stats(e),
                forall|t: Seq<char>| #[trigger] to_map(tc_pairs(e.freqs@)).contains_key(t) <==> has_key(tc_pairs(e.freqs@), t),
                forall|k: int| 0 <= k < j ==> !self@[e.id@].freqs.contains_key(#[trigger] toks@[k]@),
            decreases toks.len() - j,
        {
            match find_term(&self.docs[i].freqs, &toks[j]) {
                Some(k) => {
                    proof {
                        let t = toks@[j as int]@;
                        assert(tc_pairs(e.freqs@)[k as int].0 == t);
                        assert(self@[e.id@].freqs.contains_key(t));
                        assert(string_views(toks@)[j as int] == t);
                    }
                    return true;
                },
                None => {
                    proof {
                        let t = toks@[j as int]@;
                        assert(!has_key(tc_pairs(e.freqs@), t)) by {
                            if has_key(tc_pairs(e.freqs@), t) {
                                let k = choose|k: int| 0 <= k < tc_pairs(e.freqs@).len() && tc_pairs(e.freqs@)[k].0 == t;
                                assert(e.freqs@[k].term@ == t);
                            }
                        }
                    }
                },
            }
            j += 1;
        }
        proof {
            assert forall|t: Seq<char>|
                string_views(toks@).contains(t) implies !#[trigger] self@[self.docs@[i as int].id@].freqs.contains_key(t) by {
                let k = choose|k: int| 0 <= k < string_views(toks@).len() && string_views(toks@)[k] == t;
                assert(toks@[k]@ == t);
            }
        }
        false
    }

    /// The ids of the documents that hold at least one token of `query`,
    /// each once. These are the documents a keyword search can score.
    pub fn matching_documents(&self, query: &str) -> (ids: Vec<String>)
        requires
            self.wf(),
        ensures
            forall|a: int, b: int| 0 <= a < b < ids@.len() ==> ids@[a]@ != ids@[b]@,
            forall|k: Seq<char>|
                string_views(ids@).contains(k) <==> matches_query(self@, k, query@),
    {
        let toks = tokenize(query);
        let mut ids: Vec<String> = Vec::new();
        let ghost mut idx: Seq<int> = Seq::empty();
        let mut i: usize = 0;
        proof {
            lemma_to_map_dom(entry_pairs(self.docs@));
        }
        while i < self.docs.len()
            invariant
                self.wf(),
                i <= self.docs@.len(),
                string_views(toks@) == tokens_of(query@),
                idx.len() == ids@.len(),
                forall|a: int| 0 <= a < idx.len() ==> 0 <= #[trigger] idx[a] < i,
                forall|a: int, b: int| 0 <= a < b < idx.len() ==> idx[a] < idx[b],
                forall|a: int| 0 <= a < idx.len() ==> #[trigger] ids@[a]@ == self.docs@[idx[a]].id@,
                forall|a: int| 0 <= a < idx.len() ==> matches_query(self@, #[trigger] ids@[a]@, query@),
                forall|c: int|
                    0 <= c < i && matches_query(self@, #[trigger] self.docs@[c].id@, query@)
                        ==> idx.contains(c),
            decreases self.docs@.len() - i,
        {
            let ghost idx0 = idx;
            if self.entry_matches(i, &toks) {
                proof {
                    lemma_to_map_index(entry_pairs(self.docs@), i as int);
                    assert(matches_query(self@, self.docs@[i as int].id@, query@));
                }
                ids.push(self.docs[i].id.clone());
                proof {
                    idx = idx.push(i as int);
                }
            } else {
                proof {
                    assert(!matches_query(self@, self.docs@[i as int].id@, query@));
                }
            }
            proof {
                assert forall|c: int|
                    0 <= c < i + 1 && matches_query(self@, #[trigger] self.docs@[c].id@, query@)
                        implies idx.contains(c) by {
                    if c == i {
                        assert(idx[idx.len() - 1] == c);
                    } else {
                        assert(idx0.contains(c));
                        let a = choose|a: int| 0 <= a < idx0.len() && idx0[a] == c;
                        assert(idx[a] == c);
                    }
                }
            }
            i += 1;
        }
        proof {
            let p = entry_pairs(self.docs@);
            assert forall|a: int, b: int| 0 <= a < b < ids@.len() implies ids@[a]@ != ids@[b]@ by {
                assert(p[idx[a]].0 == ids@[a]@);
                assert(p[idx[b]].0 == ids@[b]@);
            }
            assert forall|k: Seq<char>|
                string_views(ids@).contains(k) <==> matches_query(self@, k, query@) by {
                if string_views(ids@).contains(k) {
                    let a = choose|a: int| 0 <= a < string_views(ids@).len() && string_views(ids@)[a] == k;
                    assert(ids@[a]@ == k);
                }
                if matches_query(self@, k, query@) {
                    let c = choose|c: int| 0 <= c < p.len() && p[c].0 == k;
                    assert(self.docs@[c].id@ == k);
                    assert(idx.contains(c));
                    let a = choose|a: int| 0 <= a < idx.len() && idx[a] == c;
                    assert(string_views(ids@)[a] == k);
                }
            }
        }
        ids
    }
}

/// The document map after indexing `text` under `id`, as
/// `BM25Index::index_document` leaves it.
pub open spec fn indexed(m: Map<Seq<char>, DocStats>, id: Seq<char>, text: Seq<char>) -> Map<
    Seq<char>,
    DocStats,
> {
    indexed_tokens(m, id, tokens_of(text))
}

/// The document map after indexing the tokens `toks` under `id`, as
/// `BM25Index::index_tokens` leaves it.
pub open spec fn indexed_tokens(m: Map<Seq<char>, DocStats>, id: Seq<char>, toks: Seq<Seq<char>>) -> Map<
    Seq<char>,
    DocStats,
> {
    if toks.len() == 0 {
        m.remove(id)
    } else {
        m.remove(id).insert(id, stats_of(toks))
    }
}

/// Indexing a document under an id the index does not hold and then
/// removing it leaves the index as it was.
pub proof fn law_index_then_remove(m: Map<Seq<char>, DocStats>, id: Seq<char>, text: Seq<char>)
    requires
        !m.contains_key(id),
    ensures
        indexed(m, id, text).remove(id) == m,
{
    assert(indexed(m, id, text).remove(id) =~= m);
}

/// Indexing the same text under the same id twice gives the index that
/// indexing it once gives; only the last text of a document counts.
pub proof fn law_reindex_replaces(
    m: Map<Seq<char>, DocStats>,
    id: Seq<char>,
    first: Seq<char>,
    second: Seq<char>,
)
    ensures
        indexed(indexed(m, id, first), id, second) == indexed(m, id, second),
{
    assert(indexed(indexed(m, id, first), id, second) =~= indexed(m, id, second));
}

/// A removed document matches no query.
pub proof fn law_removed_matches_nothing(m: Map<Seq<char>, DocStats>, id: Seq<char>, q: Seq<char>)
    ensures
        !matches_query(m.remove(id), id, q),
{
}

/// One call that changes a keyword index: indexing a text under an id, or
/// removing an id.
pub enum KeywordOp {
    Index(Seq<char>, Seq<char>),
    Remove(Seq<char>),
}

/// The id that a call names.
pub open spec fn op_id(o: KeywordOp) -> Seq<char> {
    match o {
        KeywordOp::Index(id, _) => id,
        KeywordOp::Remove(id) => id,
    }
}

/// The call indexes, under `d`, a text that has a token.
pub open spec fn op_indexes(o: KeywordOp, d: Seq<char>) -> bool {
    o matches KeywordOp::Index(id, text) && id == d && tokens_of(text).len() > 0
}

/// The document map after a sequence of calls, each as `index_document`
/// and `remove_document` leave it.
pub open spec fn apply_ops(m: Map<Seq<char>, DocStats>, ops: Seq<KeywordOp>) -> Map<Seq<char>, DocStats>
    decreases ops.len(),
{
    if ops.len() == 0 {
        m
    } else {
        let prev = apply_ops(m, ops.drop_last());
        match ops.last() {
            KeywordOp::Index(id, text) => indexed(prev, id, text),
            KeywordOp::Remove(id) => prev.remove(id),
        }
    }
}

/// The ids whose last call indexed a text that has a token.
pub open spec fn last_indexed(ops: Seq<KeywordOp>) -> Set<Seq<char>> {
    Set::new(
        |d: Seq<char>|
            exists|i: int|
                0 <= i < ops.len() && #[trigger] op_indexes(ops[i], d) && forall|j: int|
                    i < j < ops.len() ==> op_id(#[trigger] ops[j]) != d,
    )
}

/// Starting from an empty index, the documents held after any sequence of
/// calls are exactly the ids whose last call indexed a text with a token:
/// a text without tokens is not indexed, and removing an id un-indexes it.
/// So the index's length is the number of those ids.
pub proof fn law_index_holds_last_indexed(ops: Seq<KeywordOp>)
    ensures
        apply_ops(Map::empty(), ops).dom() == last_indexed(ops),
        apply_ops(Map::empty(), ops).dom().finite(),
        apply_ops(Map::empty(), ops).len() == last_indexed(ops).len(),
    decreases ops.len(),
{
    if ops.len() > 0 {
        let p = ops.drop_last();
        law_index_holds_last_indexed(p);
        let o = ops.last();
        let n = ops.len() - 1;
        let c = op_id(o);
        assert forall|d: Seq<char>| d != c implies (last_indexed(ops).contains(d) <==> last_indexed(
            p,
        ).contains(d)) by {
            if last_indexed(ops).contains(d) {
                let i = choose|i: int|
                    0 <= i < ops.len() && #[trigger] op_indexes(ops[i], d) && forall|j: int|
                        i < j < ops.len() ==> op_id(#[trigger] ops[j]) != d;
                if i == n {
                    assert(op_id(ops[i]) == d);
                }
                assert(p[i] == ops[i]);
                assert forall|j: int| i < j < p.len() implies op_id(#[trigger] p[j]) != d by {
                    assert(p[j] == ops[j]);
                }
            }
            if last_indexed(p).contains(d) {
                let i = choose|i: int|
                    0 <= i < p.len() && #[trigger] op_indexes(p[i], d) && forall|j: int|
                        i < j < p.len() ==> op_id(#[trigger] p[j]) != d;
                assert(ops[i] == p[i]);
                assert forall|j: int| i < j < ops.len() implies op_id(#[trigger] ops[j]) != d by {
                    if j < n {
                        assert(p[j] == ops[j]);
                    }
                }
            }
        }
        if op_indexes(o, c) {
            assert(last_indexed(ops).contains(c)) by {
                assert(op_indexes(ops[n], c));
            }
        } else {
            assert(!last_indexed(ops).contains(c)) by {
                if last_indexed(ops).contains(c) {
                    let i = choose|i: int|
                        0 <= i < ops.len() && #[trigger] op_indexes(ops[i], c) && forall|j: int|
                            i < j < ops.len() ==> op_id(#[trigger] ops[j]) != c;
                    if i < n {
                        assert(op_id(ops[n]) != c);
                    }
                }
            }
        }
        assert(apply_ops(Map::empty(), ops).dom() =~= last_indexed(ops));
    }
}

/// The documents of a consistent index form a finite map.
pub proof fn lemma_index_finite(index: &BM25Index)
    requires
        index.wf(),
    ensures
        index@.dom().finite(),
{
    lemma_to_map_dom(entry_pairs(index.docs@));
}

} // verus!
