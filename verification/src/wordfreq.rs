//! Counting word frequencies in a text: split on whitespace, keep the words
//! long enough in bytes, optionally fold case, and count each distinct word.

use vstd::prelude::*;
use std::collections::HashMap;
use std::collections::hash_map::RandomState;
use vstd::std_specs::hash::{builds_valid_hashers, obeys_key_model};
use vstd::utf8::encode_utf8;
use crate::words::{split_words, words_of};

verus! {

/// The case folding applied when counting is case-insensitive.  What the
/// standard folding returns is a pure function of the characters alone, so
/// it is given a name rather than restated.
pub uninterp spec fn lower_of(s: Seq<char>) -> Seq<char>;

/// Relies on str::to_lowercase: the result depends on the characters alone.
#[verifier::external_body]
fn lowercase(s: &str) -> (r: String)
    ensures
        r@ == lower_of(s@),
{
    s.to_lowercase()
}

/// The words that end up counted: those whose byte length reaches
/// `min_length`, folded to lower case when `ignore_case` is set.
pub open spec fn kept_words(ws: Seq<Seq<char>>, min_length: nat, ignore_case: bool) -> Seq<
    Seq<char>,
>
    decreases ws.len(),
{
    if ws.len() == 0 {
        Seq::empty()
    } else {
        let rest = kept_words(ws.drop_last(), min_length, ignore_case);
        let w = ws.last();
        if encode_utf8(w).len() >= min_length {
            rest.push(if ignore_case { lower_of(w) } else { w })
        } else {
            rest
        }
    }
}

/// How many times `w` occurs in `ws`.
pub open spec fn occurrences(ws: Seq<Seq<char>>, w: Seq<char>) -> nat
    decreases ws.len(),
{
    if ws.len() == 0 {
        0
    } else {
        occurrences(ws.drop_last(), w) + (if ws.last() == w {
            1nat
        } else {
            0nat
        })
    }
}

/// The texts of the listed words, in list order.
pub open spec fn listed_views(list: Seq<(String, u32)>) -> Seq<Seq<char>> {
    list.map_values(|e: (String, u32)| e.0@)
}

/// The texts of a count map's keys.
pub open spec fn key_views(m: Map<String, u32>) -> Set<Seq<char>> {
    m.dom().map(|s: String| s@)
}

proof fn lemma_occurrences_bound(ws: Seq<Seq<char>>, w: Seq<char>)
    ensures
        occurrences(ws, w) <= ws.len(),
    decreases ws.len(),
{
    if ws.len() > 0 {
        lemma_occurrences_bound(ws.drop_last(), w);
    }
}

proof fn lemma_occurrences_positive(ws: Seq<Seq<char>>, w: Seq<char>)
    ensures
        (occurrences(ws, w) > 0) <==> (exists|p: int| 0 <= p < ws.len() && ws[p] == w),
    decreases ws.len(),
{
    if ws.len() > 0 {
        lemma_occurrences_positive(ws.drop_last(), w);
        if ws.last() == w {
            assert(ws[ws.len() - 1] == w);
        } else {
            if exists|p: int| 0 <= p < ws.len() && ws[p] == w {
                let p = choose|p: int| 0 <= p < ws.len() && ws[p] == w;
                assert(ws.drop_last()[p] == w);
            }
            if occurrences(ws.drop_last(), w) > 0 {
                let p = choose|p: int| 0 <= p < ws.drop_last().len() && ws.drop_last()[p] == w;
                assert(ws[p] == w);
            }
        }
    }
}

proof fn lemma_occurrences_push(ws: Seq<Seq<char>>, x: Seq<char>, w: Seq<char>)
    ensures
        occurrences(ws.push(x), w) == occurrences(ws, w) + (if x == w {
            1nat
        } else {
            0nat
        }),
{
    assert(ws.push(x).drop_last() =~= ws);
    assert(ws.push(x).last() == x);
}

proof fn lemma_kept_len(ws: Seq<Seq<char>>, min_length: nat, ignore_case: bool)
    ensures
        kept_words(ws, min_length, ignore_case).len() <= ws.len(),
    decreases ws.len(),
{
    if ws.len() > 0 {
        lemma_kept_len(ws.drop_last(), min_length, ignore_case);
    }
}

proof fn lemma_kept_step(ws: Seq<Seq<char>>, i: int, min_length: nat, ignore_case: bool)
    requires
        0 <= i < ws.len(),
    ensures
        kept_words(ws.take(i + 1), min_length, ignore_case) == (if encode_utf8(ws[i]).len()
            >= min_length {
            kept_words(ws.take(i), min_length, ignore_case).push(
                if ignore_case {
                    lower_of(ws[i])
                } else {
                    ws[i]
                },
            )
        } else {
            kept_words(ws.take(i), min_length, ignore_case)
        }),
{
    assert(ws.take(i + 1).drop_last() =~= ws.take(i));
    assert(ws.take(i + 1).last() == ws[i]);
}

// Record one kept word: bump its count where its text is already listed,
// else list it with count one.
#[verifier::rlimit(60)]
#[verifier::spinoff_prover]
fn record_word(list: &mut Vec<(String, u32)>, key: String, Ghost(kept0): Ghost<Seq<Seq<char>>>)
    requires
        kept0.len() < 0xFFFFFFFF,
        forall|j1: int, j2: int|
            0 <= j1 < j2 < old(list)@.len() ==> old(list)@[j1].0@ != old(list)@[j2].0@,
        forall|j: int|
            0 <= j < old(list)@.len() ==> occurrences(kept0, #[trigger] old(list)@[j].0@) > 0
                && old(list)@[j].1 as nat == occurrences(kept0, old(list)@[j].0@),
        forall|p: int|
            0 <= p < kept0.len() ==> #[trigger] listed_views(old(list)@).contains(kept0[p]),
    ensures
        ({
            let kept1 = kept0.push(key@);
            &&& forall|j1: int, j2: int|
                0 <= j1 < j2 < final(list)@.len() ==> final(list)@[j1].0@ != final(list)@[j2].0@
            &&& forall|j: int|
                0 <= j < final(list)@.len() ==> occurrences(kept1, #[trigger] final(list)@[j].0@)
                    > 0 && final(list)@[j].1 as nat == occurrences(kept1, final(list)@[j].0@)
            &&& forall|p: int|
                0 <= p < kept1.len() ==> #[trigger] listed_views(final(list)@).contains(kept1[p])
        }),
{
    let ghost kv = key@;
    let ghost kept1 = kept0.push(kv);
    proof {
        assert forall|v: Seq<char>| true implies #[trigger] occurrences(kept1, v) == occurrences(
            kept0,
            v,
        ) + (if v == kv {
            1nat
        } else {
            0nat
        }) by {
            lemma_occurrences_push(kept0, kv, v);
        }
    }
    let mut j: usize = 0;
    let mut found: bool = false;
    let mut hit: usize = 0;
    while j < list.len()
        invariant
            key@ == kv,
            list == old(list),
            j <= list@.len(),
            found ==> hit < list@.len() && list@[hit as int].0@ == kv,
            !found ==> forall|jj: int| 0 <= jj < j ==> #[trigger] list@[jj].0@ != kv,
        decreases list@.len() - j,
    {
        if !found {
            if list[j].0.eq(&key) {
                found = true;
                hit = j;
            }
        }
        j = j + 1;
    }
    if found {
        let c = list[hit].1;
        proof {
            lemma_occurrences_bound(kept0, kv);
            assert(c as nat == occurrences(kept0, list@[hit as int].0@));
            assert(c < 0xFFFFFFFFu32);
        }
        let ghost old_list = list@;
        list[hit].1 = c + 1;
        proof {
            assert(list@.len() == old_list.len());
            assert forall|jj: int| 0 <= jj < list@.len() implies list@[jj].0 == old_list[jj].0 by {}
            assert(list@[hit as int].1 == c + 1);
            assert forall|jj: int|
                0 <= jj < list@.len() && jj != hit as int implies list@[jj].1 == old_list[jj].1 by {}
            assert forall|jj: int| 0 <= jj < list@.len() implies occurrences(
                kept1,
                #[trigger] list@[jj].0@,
            ) > 0 && list@[jj].1 as nat == occurrences(kept1, list@[jj].0@) by {
                if jj == hit as int {
                    assert(list@[jj].0@ == kv);
                    assert(occurrences(kept1, kv) == occurrences(kept0, kv) + 1);
                } else {
                    if jj < hit as int {
                        assert(old_list[jj].0@ != old_list[hit as int].0@);
                    } else {
                        assert(old_list[hit as int].0@ != old_list[jj].0@);
                    }
                    assert(list@[jj].0@ != kv);
                    assert(occurrences(kept1, list@[jj].0@) == occurrences(kept0, list@[jj].0@));
                }
            }
            assert forall|p: int| 0 <= p < kept1.len() implies #[trigger] listed_views(
                list@,
            ).contains(kept1[p]) by {
                if p < kept0.len() {
                    assert(listed_views(old_list).contains(kept0[p]));
                    let jj = choose|jj: int|
                        0 <= jj < listed_views(old_list).len() && listed_views(old_list)[jj]
                            == kept0[p];
                    assert(listed_views(list@)[jj] == old_list[jj].0@);
                    assert(listed_views(list@)[jj] == kept1[p]);
                } else {
                    assert(kept1[p] == kv);
                    assert(listed_views(list@)[hit as int] == kv);
                }
            }
        }
    } else {
        proof {
            lemma_occurrences_positive(kept0, kv);
            if occurrences(kept0, kv) > 0 {
                let p = choose|p: int| 0 <= p < kept0.len() && kept0[p] == kv;
                assert(listed_views(list@).contains(kept0[p]));
                let jj = choose|jj: int|
                    0 <= jj < listed_views(list@).len() && listed_views(list@)[jj] == kept0[p];
                assert(list@[jj].0@ == kv);
                assert(false);
            }
        }
        let ghost old_list = list@;
        let ghost gkey = key;
        list.push((key, 1));
        proof {
            assert(list@ == old_list.push((gkey, 1u32)));
            assert(list@[old_list.len() as int].0@ == kv);
            assert forall|jj: int| 0 <= jj < old_list.len() implies list@[jj] == old_list[jj] by {}
            assert forall|jj: int| 0 <= jj < list@.len() implies occurrences(
                kept1,
                #[trigger] list@[jj].0@,
            ) > 0 && list@[jj].1 as nat == occurrences(kept1, list@[jj].0@) by {
                if jj == old_list.len() as int {
                    assert(list@[jj].0@ == kv);
                    assert(occurrences(kept1, kv) == 1);
                } else {
                    assert(old_list[jj].0@ != kv);
                    assert(occurrences(kept1, list@[jj].0@) == occurrences(kept0, list@[jj].0@));
                }
            }
            assert forall|p: int| 0 <= p < kept1.len() implies #[trigger] listed_views(
                list@,
            ).contains(kept1[p]) by {
                if p < kept0.len() {
                    assert(listed_views(old_list).contains(kept0[p]));
                    let jj = choose|jj: int|
                        0 <= jj < listed_views(old_list).len() && listed_views(old_list)[jj]
                            == kept0[p];
                    assert(listed_views(list@)[jj] == old_list[jj].0@);
                    assert(listed_views(list@)[jj] == kept1[p]);
                } else {
                    assert(kept1[p] == kv);
                    assert(listed_views(list@)[old_list.len() as int] == kv);
                }
            }
        }
    }
}

// Pass one: the association list of distinct kept words with their counts.
#[verifier::rlimit(60)]
#[verifier::spinoff_prover]
fn count_into_list(words: &Vec<String>, min_length: usize, ignore_case: bool) -> (list: Vec<
    (String, u32),
>)
    requires
        words@.len() <= 0xFFFFFFFF,
        forall|i: int|
            0 <= i < words@.len() ==> #[trigger] encode_utf8(words@[i]@).len() <= usize::MAX,
    ensures
        ({
            let kept = kept_words(words@.map_values(|w: String| w@), min_length as nat, ignore_case);
            &&& forall|j1: int, j2: int|
                0 <= j1 < j2 < list@.len() ==> list@[j1].0@ != list@[j2].0@
            &&& forall|j: int|
                0 <= j < list@.len() ==> occurrences(kept, #[trigger] list@[j].0@) > 0
                    && list@[j].1 as nat == occurrences(kept, list@[j].0@)
            &&& forall|p: int|
                0 <= p < kept.len() ==> #[trigger] listed_views(list@).contains(kept[p])
        }),
{
    let ghost ws = words@.map_values(|w: String| w@);
    let ghost minl = min_length as nat;
    let mut list: Vec<(String, u32)> = Vec::new();
    let ghost mut kept_g: Seq<Seq<char>> = Seq::empty();
    proof {
        assert(ws.take(0) =~= Seq::<Seq<char>>::empty());
    }
    let mut idx: usize = 0;
    while idx < words.len()
        invariant
            ws == words@.map_values(|w: String| w@),
            minl == min_length as nat,
            idx <= words@.len(),
            words@.len() == ws.len() <= 0xFFFFFFFF,
            forall|i: int|
                0 <= i < words@.len() ==> #[trigger] encode_utf8(words@[i]@).len() <= usize::MAX,
            kept_g == kept_words(ws.take(idx as int), minl, ignore_case),
            kept_g.len() <= idx,
            forall|j1: int, j2: int|
                0 <= j1 < j2 < list@.len() ==> list@[j1].0@ != list@[j2].0@,
            forall|j: int|
                0 <= j < list@.len() ==> occurrences(kept_g, #[trigger] list@[j].0@) > 0
                    && list@[j].1 as nat == occurrences(kept_g, list@[j].0@),
            forall|p: int|
                0 <= p < kept_g.len() ==> #[trigger] listed_views(list@).contains(kept_g[p]),
        decreases words@.len() - idx,
    {
        proof {
            lemma_kept_step(ws, idx as int, minl, ignore_case);
            lemma_kept_len(ws.take(idx as int), minl, ignore_case);
            assert(ws.take(idx as int).len() == idx as int);
            assert(words@[idx as int]@ == ws[idx as int]);
        }
        let word = &words[idx];
        let keep = word.as_str().len() >= min_length;
        proof {
            assert(encode_utf8(words@[idx as int]@).len() <= usize::MAX);
            assert(keep == (encode_utf8(ws[idx as int]).len() >= minl));
        }
        if keep {
            let key = if ignore_case {
                lowercase(word.as_str())
            } else {
                word.clone()
            };
            let ghost kv = key@;
            proof {
                assert(kv == (if ignore_case {
                    lower_of(ws[idx as int])
                } else {
                    ws[idx as int]
                }));
                assert(kept_words(ws.take(idx as int + 1), minl, ignore_case) == kept_g.push(kv));
            }
            record_word(&mut list, key, Ghost(kept_g));
            proof {
                kept_g = kept_g.push(kv);
            }
        } else {
            proof {
                assert(kept_words(ws.take(idx as int + 1), minl, ignore_case) == kept_g);
            }
        }
        idx = idx + 1;
    }
    proof {
        assert(ws.take(words@.len() as int) =~= ws);
    }
    list
}

// Pass two: pour the association list into the hash map.
#[verifier::rlimit(60)]
#[verifier::spinoff_prover]
fn list_into_map(list: Vec<(String, u32)>, Ghost(kept): Ghost<Seq<Seq<char>>>) -> (counts: HashMap<
    String,
    u32,
>)
    requires
        forall|j: int|
            0 <= j < list@.len() ==> occurrences(kept, #[trigger] list@[j].0@) > 0
                && list@[j].1 as nat == occurrences(kept, list@[j].0@),
        forall|j1: int, j2: int| 0 <= j1 < j2 < list@.len() ==> list@[j1].0@ != list@[j2].0@,
    ensures
        obeys_key_model::<String>() && builds_valid_hashers::<RandomState>() ==> {
            &&& forall|s: String| #[trigger]
                counts@.contains_key(s) ==> occurrences(kept, s@) > 0 && counts@[s] as nat
                    == occurrences(kept, s@)
            &&& forall|j: int|
                0 <= j < list@.len() ==> #[trigger] key_views(counts@).contains(list@[j].0@)
            &&& forall|k1: String, k2: String|
                #![trigger counts@.contains_key(k1), counts@.contains_key(k2)]
                counts@.contains_key(k1) && counts@.contains_key(k2) && k1 != k2 ==> k1@ != k2@
        },
{
    let mut counts: HashMap<String, u32> = HashMap::new();
    let mut k: usize = 0;
    while k < list.len()
        invariant
            k <= list@.len(),
            forall|j: int|
                0 <= j < list@.len() ==> occurrences(kept, #[trigger] list@[j].0@) > 0
                    && list@[j].1 as nat == occurrences(kept, list@[j].0@),
            forall|j1: int, j2: int| 0 <= j1 < j2 < list@.len() ==> list@[j1].0@ != list@[j2].0@,
            obeys_key_model::<String>() && builds_valid_hashers::<RandomState>() ==> {
                &&& forall|s: String| #[trigger]
                    counts@.contains_key(s) ==> occurrences(kept, s@) > 0 && counts@[s] as nat
                        == occurrences(kept, s@)
                &&& forall|j: int|
                    0 <= j < k as int ==> #[trigger] key_views(counts@).contains(list@[j].0@)
                &&& forall|s: String| #[trigger]
                    counts@.contains_key(s) ==> exists|j: int|
                        0 <= j < k as int && s == list@[j].0
            },
        decreases list@.len() - k,
    {
        let key = list[k].0.clone();
        let value = list[k].1;
        let ghost pre = counts@;
        let ghost gkey = key;
        counts.insert(key, value);
        proof {
            if obeys_key_model::<String>() && builds_valid_hashers::<RandomState>() {
                assert(counts@ == pre.insert(gkey, value));
                assert(gkey@ == list@[k as int].0@);
                assert forall|s: String| #[trigger] counts@.contains_key(s) implies occurrences(
                    kept,
                    s@,
                ) > 0 && counts@[s] as nat == occurrences(kept, s@) by {
                    if s == gkey {
                        assert(counts@[s] == list@[k as int].1);
                        assert(occurrences(kept, list@[k as int].0@) > 0);
                    } else {
                        assert(pre.contains_key(s));
                        assert(counts@[s] == pre[s]);
                    }
                }
                assert forall|j: int| 0 <= j < k as int + 1 implies #[trigger] key_views(
                    counts@,
                ).contains(list@[j].0@) by {
                    if j == k as int {
                        assert(counts@.dom().contains(gkey));
                        assert(key_views(counts@).contains(gkey@));
                    } else {
                        assert(key_views(pre).contains(list@[j].0@));
                        let x = choose|x: String| pre.dom().contains(x) && x@ == list@[j].0@;
                        assert(counts@.dom().contains(x));
                        assert(key_views(counts@).contains(x@));
                    }
                }
                assert(gkey == list@[k as int].0);
                assert forall|s: String| #[trigger] counts@.contains_key(s) implies exists|j: int|
                    0 <= j < k as int + 1 && s == list@[j].0 by {
                    if s == gkey {
                        assert(s == list@[k as int].0);
                    } else {
                        assert(pre.contains_key(s));
                        let j = choose|j: int| 0 <= j < k as int && s == list@[j].0;
                        assert(s == list@[j].0);
                    }
                }
            }
        }
        k = k + 1;
    }
    proof {
        if obeys_key_model::<String>() && builds_valid_hashers::<RandomState>() {
            assert forall|k1: String, k2: String|
                #![trigger counts@.contains_key(k1), counts@.contains_key(k2)]
                counts@.contains_key(k1) && counts@.contains_key(k2) && k1 != k2 implies k1@
                != k2@ by {
                let j1 = choose|j: int| 0 <= j < k as int && k1 == list@[j].0;
                let j2 = choose|j: int| 0 <= j < k as int && k2 == list@[j].0;
                if k1@ == k2@ {
                    if j1 < j2 {
                        assert(list@[j1].0@ != list@[j2].0@);
                    } else if j2 < j1 {
                        assert(list@[j2].0@ != list@[j1].0@);
                    }
                    assert(false);
                }
            }
        }
    }
    counts
}

/// Count how often each kept word occurs in `text`.  Words shorter than
/// `min_length` bytes are dropped; with `ignore_case` every kept word is
/// folded to lower case before counting.  Under the standard hashing model,
/// every key of the returned map is a kept word mapped to its exact count,
/// every kept word's text appears among the keys, and no two keys carry
/// the same text.
#[verifier::rlimit(60)]
#[verifier::spinoff_prover]
pub fn count_word_frequency(text: &str, min_length: usize, ignore_case: bool) -> (counts: HashMap<
    String,
    u32,
>)
    requires
        text@.len() <= 0xFFFFFFFF,
    ensures
        obeys_key_model::<String>() && builds_valid_hashers::<RandomState>() ==> {
            let kept = kept_words(words_of(text@), min_length as nat, ignore_case);
            &&& forall|k: String| #[trigger]
                counts@.contains_key(k) ==> occurrences(kept, k@) > 0 && counts@[k] as nat
                    == occurrences(kept, k@)
            &&& forall|p: int|
                0 <= p < kept.len() ==> #[trigger] key_views(counts@).contains(kept[p])
            &&& forall|k1: String, k2: String|
                #![trigger counts@.contains_key(k1), counts@.contains_key(k2)]
                counts@.contains_key(k1) && counts@.contains_key(k2) && k1 != k2 ==> k1@ != k2@
        },
{
    let ghost kept = kept_words(words_of(text@), min_length as nat, ignore_case);
    let words = split_words(text);
    proof {
        assert(words@.map_values(|w: String| w@) =~= words_of(text@));
    }
    let list = count_into_list(&words, min_length, ignore_case);
    let counts = list_into_map(list, Ghost(kept));
    proof {
        if obeys_key_model::<String>() && builds_valid_hashers::<RandomState>() {
            assert forall|p: int| 0 <= p < kept.len() implies #[trigger] key_views(
                counts@,
            ).contains(kept[p]) by {
                assert(listed_views(list@).contains(kept[p]));
                let jj = choose|jj: int|
                    0 <= jj < listed_views(list@).len() && listed_views(list@)[jj] == kept[p];
                assert(listed_views(list@)[jj] == list@[jj].0@);
                assert(key_views(counts@).contains(list@[jj].0@));
            }
        }
    }
    counts
}

} // verus!
