//! Request fingerprints: the identity under which a processed result is cached.
//!
//! A fingerprint holds the table, the time range, the tag filter as a sorted
//! list, and a 64-bit signature of the processing options. The signature folds
//! a word list that encodes every option through an invertible mixing step, so
//! that options which differ in a single flag, number or character never share
//! a signature.

use vstd::prelude::*;
use crate::models::DataProcessingConfig;
use crate::order::{sort_by_key, sorted_by_key, keys_of, lemma_sorted_keys, lemma_sorted_texts_unique};

verus! {

pub const MIX_MULTIPLIER: u64 = 0x100000001b3;

pub const MIX_SEED: u64 = 0xcbf29ce484222325;

/// One mixing step: xor the word in, then multiply by an odd constant.
pub open spec fn mix(state: u64, word: u64) -> u64 {
    ((state ^ word) as int * MIX_MULTIPLIER as int) as u64
}

/// The state after mixing in every word, first to last.
pub open spec fn fold_words(state: u64, words: Seq<u64>) -> u64
    decreases words.len(),
{
    if words.len() == 0 {
        state
    } else {
        mix(fold_words(state, words.drop_last()), words.last())
    }
}

pub open spec fn flag_word(b: bool) -> u64 {
    if b { 1 } else { 0 }
}

/// A text as words: its length, then each character.
pub open spec fn text_words(s: Seq<char>) -> Seq<u64> {
    seq![s.len() as u64] + s.map_values(|c: char| c as u64)
}

/// Every option of a processing configuration, as words.
pub open spec fn config_words(c: DataProcessingConfig) -> Seq<u64> {
    seq![flag_word(c.outlier_removal.enabled)]
        + text_words(c.outlier_removal.method@)
        + seq![flag_word(c.resample.enabled), c.resample.interval as u64]
        + text_words(c.resample.method@)
        + seq![flag_word(c.smoothing.enabled)]
        + text_words(c.smoothing.method@)
        + seq![c.smoothing.window as u64]
}

/// The signature of optional processing options; no options sign as zero.
pub open spec fn config_signature(c: Option<DataProcessingConfig>) -> u64 {
    match c {
        Some(cfg) => fold_words(MIX_SEED, config_words(cfg)),
        None => 0,
    }
}

proof fn lemma_mix_inverse(x: u64)
    ensures
        ((x * 0x100000001b3u64) as u64 * 0xce965057aff6957bu64) as u64 == x,
{
    assert(((x * 0x100000001b3u64) as u64 * 0xce965057aff6957bu64) as u64 == x) by (bit_vector);
}

/// Mixing is one-to-one in the state and in the word.
pub proof fn lemma_mix_injective(s1: u64, w1: u64, s2: u64, w2: u64)
    requires
        mix(s1, w1) == mix(s2, w2),
    ensures
        s1 ^ w1 == s2 ^ w2,
        s1 == s2 ==> w1 == w2,
        w1 == w2 ==> s1 == s2,
{
    let a = s1 ^ w1;
    let b = s2 ^ w2;
    lemma_mix_inverse(a);
    lemma_mix_inverse(b);
    if s1 == s2 && w1 != w2 {
        assert(s1 ^ w1 != s1 ^ w2) by (bit_vector)
            requires w1 != w2;
    }
    if w1 == w2 && s1 != s2 {
        assert(s1 ^ w1 != s2 ^ w1) by (bit_vector)
            requires s1 != s2;
    }
}

pub proof fn lemma_fold_append(s: u64, u: Seq<u64>, v: Seq<u64>)
    ensures
        fold_words(s, u + v) == fold_words(fold_words(s, u), v),
    decreases v.len(),
{
    if v.len() == 0 {
        assert(u + v =~= u);
    } else {
        assert((u + v).drop_last() =~= u + v.drop_last());
        lemma_fold_append(s, u, v.drop_last());
    }
}

/// Folding the same words from two different states never meets.
pub proof fn lemma_fold_injective(s1: u64, s2: u64, v: Seq<u64>)
    requires
        s1 != s2,
    ensures
        fold_words(s1, v) != fold_words(s2, v),
    decreases v.len(),
{
    if v.len() > 0 {
        lemma_fold_injective(s1, s2, v.drop_last());
        if fold_words(s1, v) == fold_words(s2, v) {
            lemma_mix_injective(fold_words(s1, v.drop_last()), v.last(), fold_words(s2, v.drop_last()), v.last());
        }
    }
}

/// Two word lists that differ in exactly one position fold to different values.
pub proof fn lemma_one_word_apart(s: u64, pre: Seq<u64>, x: u64, y: u64, post: Seq<u64>)
    requires
        x != y,
    ensures
        fold_words(s, pre + seq![x] + post) != fold_words(s, pre + seq![y] + post),
{
    lemma_fold_append(s, pre + seq![x], post);
    lemma_fold_append(s, pre + seq![y], post);
    let t = fold_words(s, pre);
    assert((pre + seq![x]).drop_last() =~= pre);
    assert((pre + seq![y]).drop_last() =~= pre);
    if mix(t, x) == mix(t, y) {
        lemma_mix_injective(t, x, t, y);
    }
    lemma_fold_injective(mix(t, x), mix(t, y), post);
}

/// Two texts of the same length that differ in exactly one character.
pub open spec fn one_char_apart(a: Seq<char>, b: Seq<char>) -> bool {
    &&& a.len() == b.len()
    &&& exists|c: int| 0 <= c < a.len() && a[c] != b[c] && forall|d: int| 0 <= d < a.len() && d != c ==> #[trigger] a[d] == b[d]
}

/// Processing options that agree everywhere except in exactly one switch,
/// the resampling interval, the smoothing window, or one character of one
/// method name (the names keeping their lengths).
pub open spec fn one_option_apart(a: DataProcessingConfig, b: DataProcessingConfig) -> bool {
    let ao = a.outlier_removal;
    let bo = b.outlier_removal;
    let ar = a.resample;
    let br = b.resample;
    let sa = a.smoothing;
    let sb = b.smoothing;
    let same_methods = ao.method@ == bo.method@ && ar.method@ == br.method@ && sa.method@ == sb.method@;
    let same_numbers = ao.enabled == bo.enabled && ar.enabled == br.enabled && ar.interval == br.interval && sa.enabled == sb.enabled && sa.window == sb.window;
    ||| same_methods && ao.enabled != bo.enabled && ar.enabled == br.enabled && ar.interval == br.interval && sa.enabled == sb.enabled && sa.window == sb.window
    ||| same_methods && ao.enabled == bo.enabled && ar.enabled != br.enabled && ar.interval == br.interval && sa.enabled == sb.enabled && sa.window == sb.window
    ||| same_methods && ao.enabled == bo.enabled && ar.enabled == br.enabled && ar.interval != br.interval && sa.enabled == sb.enabled && sa.window == sb.window
    ||| same_methods && ao.enabled == bo.enabled && ar.enabled == br.enabled && ar.interval == br.interval && sa.enabled != sb.enabled && sa.window == sb.window
    ||| same_methods && ao.enabled == bo.enabled && ar.enabled == br.enabled && ar.interval == br.interval && sa.enabled == sb.enabled && sa.window != sb.window
    ||| same_numbers && one_char_apart(ao.method@, bo.method@) && ar.method@ == br.method@ && sa.method@ == sb.method@
    ||| same_numbers && ao.method@ == bo.method@ && one_char_apart(ar.method@, br.method@) && sa.method@ == sb.method@
    ||| same_numbers && ao.method@ == bo.method@ && ar.method@ == br.method@ && one_char_apart(sa.method@, sb.method@)
}

/// The words of `a` and `b` agree but at position `k`.
pub open spec fn words_apart_at(a: DataProcessingConfig, b: DataProcessingConfig, k: int) -> bool {
    let wa = config_words(a);
    let wb = config_words(b);
    &&& 0 <= k < wa.len()
    &&& wa.len() == wb.len()
    &&& wa[k] != wb[k]
    &&& forall|i: int| 0 <= i < wa.len() && i != k ==> wa[i] == wb[i]
}

proof fn lemma_words_apart_at(a: DataProcessingConfig, b: DataProcessingConfig, k: int)
    requires
        words_apart_at(a, b, k),
    ensures
        config_signature(Some(a)) != config_signature(Some(b)),
{
    let wa = config_words(a);
    let wb = config_words(b);
    let pre = wa.subrange(0, k);
    let post = wa.subrange(k + 1, wa.len() as int);
    assert(wa =~= pre + seq![wa[k]] + post);
    assert(wb =~= pre + seq![wb[k]] + post);
    lemma_one_word_apart(MIX_SEED, pre, wa[k], wb[k], post);
}

proof fn lemma_char_word_injective(x: char, y: char)
    requires
        x != y,
    ensures
        x as u64 != y as u64,
{
    assert(x as u32 != y as u32);
}

/// Word lists that share a prefix and a suffix and hold, in between, two
/// texts one character apart, fold to different values.
proof fn lemma_middle_text_apart(pre: Seq<u64>, x: Seq<char>, y: Seq<char>, post: Seq<u64>)
    requires
        one_char_apart(x, y),
    ensures
        fold_words(MIX_SEED, pre + text_words(x) + post) != fold_words(MIX_SEED, pre + text_words(y) + post),
{
    let c = choose|c: int| 0 <= c < x.len() && x[c] != y[c] && forall|d: int| 0 <= d < x.len() && d != c ==> #[trigger] x[d] == y[d];
    lemma_char_word_injective(x[c], y[c]);
    let tx = text_words(x);
    let ty = text_words(y);
    assert(tx.len() == ty.len());
    assert(tx[1 + c] == x[c] as u64);
    assert(ty[1 + c] == y[c] as u64);
    assert(tx.subrange(0, 1 + c) =~= ty.subrange(0, 1 + c)) by {
        assert forall|i: int| 0 <= i < 1 + c implies #[trigger] tx.subrange(0, 1 + c)[i] == ty.subrange(0, 1 + c)[i] by {
            if i > 0 {
                assert(x[i - 1] == y[i - 1]);
            }
        }
    }
    assert(tx.subrange(2 + c, tx.len() as int) =~= ty.subrange(2 + c, ty.len() as int)) by {
        assert forall|i: int| 0 <= i < tx.len() - (2 + c) implies #[trigger] tx.subrange(2 + c, tx.len() as int)[i] == ty.subrange(2 + c, ty.len() as int)[i] by {
            assert(x[i + 1 + c] == y[i + 1 + c]);
        }
    }
    let head = pre + tx.subrange(0, 1 + c);
    let tail = tx.subrange(2 + c, tx.len() as int) + post;
    assert(pre + tx + post =~= head + seq![tx[1 + c]] + tail);
    assert(pre + ty + post =~= head + seq![ty[1 + c]] + tail);
    lemma_one_word_apart(MIX_SEED, head, tx[1 + c], ty[1 + c], tail);
}

proof fn lemma_switch_or_number_apart(a: DataProcessingConfig, b: DataProcessingConfig)
    requires
        one_option_apart(a, b),
        a.outlier_removal.method@ == b.outlier_removal.method@,
        a.resample.method@ == b.resample.method@,
        a.smoothing.method@ == b.smoothing.method@,
        !(a.outlier_removal.enabled == b.outlier_removal.enabled && a.resample.enabled == b.resample.enabled
            && a.resample.interval == b.resample.interval && a.smoothing.enabled == b.smoothing.enabled
            && a.smoothing.window == b.smoothing.window),
    ensures
        config_signature(Some(a)) != config_signature(Some(b)),
{
    let lo = a.outlier_removal.method@.len() as int;
    let lr = a.resample.method@.len() as int;
    let ls = a.smoothing.method@.len() as int;
    let wa = config_words(a);
    assert(text_words(a.outlier_removal.method@) == text_words(b.outlier_removal.method@));
    assert(text_words(a.resample.method@) == text_words(b.resample.method@));
    assert(text_words(a.smoothing.method@) == text_words(b.smoothing.method@));
    let k: int = if a.outlier_removal.enabled != b.outlier_removal.enabled {
        0
    } else if a.resample.enabled != b.resample.enabled {
        lo + 2
    } else if a.resample.interval != b.resample.interval {
        lo + 3
    } else if a.smoothing.enabled != b.smoothing.enabled {
        lo + lr + 5
    } else {
        lo + lr + ls + 7
    };
    assert(wa.len() == lo + lr + ls + 8);
    assert(words_apart_at(a, b, k));
    lemma_words_apart_at(a, b, k);
}

/// Processing options that differ in a single switch, in the resampling
/// interval, in the smoothing window, or in one character of one method name
/// have different signatures, so they never share a cache entry.
pub proof fn lemma_signature_separates_options(a: DataProcessingConfig, b: DataProcessingConfig)
    requires
        one_option_apart(a, b),
    ensures
        config_signature(Some(a)) != config_signature(Some(b)),
{
    let om_a = a.outlier_removal.method@;
    let om_b = b.outlier_removal.method@;
    let rm_a = a.resample.method@;
    let rm_b = b.resample.method@;
    let sm_a = a.smoothing.method@;
    let sm_b = b.smoothing.method@;
    let oe = seq![flag_word(a.outlier_removal.enabled)];
    let rr = seq![flag_word(a.resample.enabled), a.resample.interval as u64];
    let se = seq![flag_word(a.smoothing.enabled)];
    let sw = seq![a.smoothing.window as u64];
    if om_a == om_b && rm_a == rm_b && sm_a == sm_b {
        lemma_switch_or_number_apart(a, b);
    } else if om_a != om_b {
        let post = rr + text_words(rm_a) + se + text_words(sm_a) + sw;
        assert(config_words(a) =~= oe + text_words(om_a) + post);
        assert(config_words(b) =~= oe + text_words(om_b) + post);
        lemma_middle_text_apart(oe, om_a, om_b, post);
    } else if rm_a != rm_b {
        let pre = oe + text_words(om_a) + rr;
        let post = se + text_words(sm_a) + sw;
        assert(config_words(a) =~= pre + text_words(rm_a) + post);
        assert(config_words(b) =~= pre + text_words(rm_b) + post);
        lemma_middle_text_apart(pre, rm_a, rm_b, post);
    } else {
        let pre = oe + text_words(om_a) + rr + text_words(rm_a) + se;
        assert(config_words(a) =~= pre + text_words(sm_a) + sw);
        assert(config_words(b) =~= pre + text_words(sm_b) + sw);
        lemma_middle_text_apart(pre, sm_a, sm_b, sw);
    }
}

/// Appends the words of a text.
fn push_text_words(words: &mut Vec<u64>, s: &str)
    ensures
        final(words)@ == old(words)@ + text_words(s@),
{
    let n = s.unicode_len();
    words.push(n as u64);
    let mut i: usize = 0;
    while i < n
        invariant
            n == s@.len(),
            0 <= i <= n,
            words@ == old(words)@ + seq![n as u64] + s@.subrange(0, i as int).map_values(|c: char| c as u64),
        decreases n - i,
    {
        let c = s.get_char(i);
        words.push(c as u32 as u64);
        i = i + 1;
        assert(s@.subrange(0, i as int).map_values(|c: char| c as u64) =~= s@.subrange(0, i - 1).map_values(|c: char| c as u64).push(c as u64));
    }
    assert(s@.subrange(0, n as int) =~= s@);
    assert(words@ =~= old(words)@ + text_words(s@));
}

fn flag_to_word(b: bool) -> (r: u64)
    ensures
        r == flag_word(b),
{
    if b { 1 } else { 0 }
}

/// The signature of optional processing options.
pub fn processing_signature(config: Option<&DataProcessingConfig>) -> (r: u64)
    ensures
        r == config_signature(match config {
            Some(c) => Some(*c),
            None => None,
        }),
{
    match config {
        None => 0,
        Some(c) => {
            let mut words: Vec<u64> = Vec::new();
            words.push(flag_to_word(c.outlier_removal.enabled));
            push_text_words(&mut words, c.outlier_removal.method.as_str());
            words.push(flag_to_word(c.resample.enabled));
            words.push(c.resample.interval as u64);
            push_text_words(&mut words, c.resample.method.as_str());
            words.push(flag_to_word(c.smoothing.enabled));
            push_text_words(&mut words, c.smoothing.method.as_str());
            words.push(c.smoothing.window as u64);
            assert(words@ =~= config_words(*c));
            let mut h: u64 = MIX_SEED;
            let mut i: usize = 0;
            while i < words.len()
                invariant
                    0 <= i <= words@.len(),
                    words@ == config_words(*c),
                    h == fold_words(MIX_SEED, words@.subrange(0, i as int)),
                decreases words@.len() - i,
            {
                let x = h ^ words[i];
                h = ((x as u128) * (MIX_MULTIPLIER as u128)) as u64;
                i = i + 1;
                assert(words@.subrange(0, i as int).drop_last() =~= words@.subrange(0, i - 1));
            }
            assert(words@.subrange(0, words@.len() as int) =~= words@);
            h
        },
    }
}

/// Cache identity of a query and its processing options.
#[derive(Debug, Clone, PartialEq, Eq, Hash)]
pub struct CacheKey {
    pub table: String,
    pub start_time: String,
    pub end_time: String,
    /// The tag filter, sorted.
    pub tags: Vec<String>,
    pub processing_config_hash: u64,
}

/// What identifies a key: its texts and its signature.
pub open spec fn key_view(k: CacheKey) -> (Seq<char>, Seq<char>, Seq<char>, Seq<Seq<char>>, u64) {
    (k.table@, k.start_time@, k.end_time@, keys_of(k.tags@), k.processing_config_hash)
}

/// The tags of an optional filter; no filter is an empty one.
pub open spec fn filter_texts(tags: Option<Seq<String>>) -> Seq<Seq<char>> {
    match tags {
        Some(t) => keys_of(t),
        None => Seq::empty(),
    }
}

/// `k` is the key of the given request: the texts are kept, the tags are the
/// filter's tags in sorted order, and the signature is that of the options.
pub open spec fn key_for(
    k: CacheKey,
    table: Seq<char>,
    start_time: Seq<char>,
    end_time: Seq<char>,
    tags: Option<Seq<String>>,
    config: Option<DataProcessingConfig>,
) -> bool {
    &&& k.table@ == table
    &&& k.start_time@ == start_time
    &&& k.end_time@ == end_time
    &&& sorted_by_key(k.tags@)
    &&& keys_of(k.tags@).to_multiset() == filter_texts(tags).to_multiset()
    &&& k.processing_config_hash == config_signature(config)
}

/// Keys of two requests that agree in table, time range and processing
/// options, and whose tag filters hold the same tags in any order, are equal;
/// an absent filter and an empty one give the same key.
pub proof fn lemma_fingerprint_ignores_tag_order(
    k1: CacheKey,
    k2: CacheKey,
    table: Seq<char>,
    start_time: Seq<char>,
    end_time: Seq<char>,
    tags1: Option<Seq<String>>,
    tags2: Option<Seq<String>>,
    config: Option<DataProcessingConfig>,
)
    requires
        key_for(k1, table, start_time, end_time, tags1, config),
        key_for(k2, table, start_time, end_time, tags2, config),
        filter_texts(tags1).to_multiset() == filter_texts(tags2).to_multiset(),
    ensures
        key_view(k1) == key_view(k2),
{
    lemma_sorted_keys(k1.tags@);
    lemma_sorted_keys(k2.tags@);
    lemma_sorted_texts_unique(keys_of(k1.tags@), keys_of(k2.tags@));
}

impl CacheKey {
    /// Builds the key of a request; the order of the tags does not matter.
    pub fn new(
        table: &str,
        start_time: &str,
        end_time: &str,
        tags: Option<&[String]>,
        processing_config: Option<&DataProcessingConfig>,
    ) -> (r: Self)
        ensures
            key_for(
                r,
                table@,
                start_time@,
                end_time@,
                match tags {
                    Some(t) => Some(t@),
                    None => None,
                },
                match processing_config {
                    Some(c) => Some(*c),
                    None => None,
                },
            ),
    {
        let mut sorted_tags: Vec<String> = Vec::new();
        match tags {
            Some(t) => {
                let mut i: usize = 0;
                while i < t.len()
                    invariant
                        0 <= i <= t@.len(),
                        sorted_tags@ == t@.subrange(0, i as int),
                    decreases t@.len() - i,
                {
                    sorted_tags.push(t[i].clone());
                    i = i + 1;
                    assert(sorted_tags@ =~= t@.subrange(0, i as int));
                }
                assert(t@.subrange(0, t@.len() as int) =~= t@);
            },
            None => {},
        }
        let ghost unsorted = sorted_tags@;
        assert(keys_of(unsorted) =~= filter_texts(match tags {
            Some(t) => Some(t@),
            None => None,
        }));
        sort_by_key(&mut sorted_tags);
        let processing_config_hash = processing_signature(processing_config);
        CacheKey {
            table: String::from_str(table),
            start_time: String::from_str(start_time),
            end_time: String::from_str(end_time),
            tags: sorted_tags,
            processing_config_hash,
        }
    }
}

} // verus!
