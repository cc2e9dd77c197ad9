//! Letter statistics of a transcript and its Shannon entropy, decided
//! exactly on whole numbers.

use vstd::prelude::*;
use crate::error::RejectReason;
use crate::natural::{less_than, mul_small, val};
use crate::quality::final_rejection;
use crate::repetition::{count_word, occurrences};
use crate::text::{
    alphabetic, char_is_alphabetic, char_to_lowercase, chars_eq, chars_of, lower_chars, string_of,
    views,
};

verus! {

/// The lower-cased form of each letter of the text, in order; other
/// characters are left out.
pub open spec fn letter_keys(s: Seq<char>) -> Seq<Seq<char>>
    decreases s.len(),
{
    if s.len() == 0 {
        seq![]
    } else {
        let k = letter_keys(s.drop_last());
        if alphabetic(s.last()) {
            k.push(lower_chars(s.last()))
        } else {
            k
        }
    }
}

/// How often one letter occurs in a text, case folded.
pub struct LetterCount {
    pub letter: String,
    pub count: usize,
}

pub open spec fn count_letters(r: Seq<LetterCount>) -> Seq<Seq<char>> {
    r.map_values(|e: LetterCount| e.letter@)
}

proof fn lemma_occurrences_absent(ws: Seq<Seq<char>>, w: Seq<char>)
    requires
        !ws.contains(w),
    ensures
        occurrences(ws, w) == 0,
    decreases ws.len(),
{
    if ws.len() > 0 {
        assert(!ws.drop_last().contains(w)) by {
            if ws.drop_last().contains(w) {
                let k = choose|k: int| 0 <= k < ws.drop_last().len() && ws.drop_last()[k] == w;
                assert(ws[k] == w);
            }
        }
        assert(ws.last() != w) by {
            if ws.last() == w {
                assert(ws[ws.len() - 1] == w);
            }
        }
        lemma_occurrences_absent(ws.drop_last(), w);
    }
}

/// The letter frequencies of a text, the distribution over which its
/// character entropy is taken: one entry per distinct lower-cased letter,
/// with how often it occurs. Characters that are not letters do not count.
pub fn letter_counts(text: &str) -> (r: Vec<LetterCount>)
    ensures
        forall|i: int|
            0 <= i < r@.len() ==> (#[trigger] r@[i]).count == occurrences(
                letter_keys(text@),
                r@[i].letter@,
            ) && r@[i].count > 0,
        forall|i: int, j: int|
            0 <= i < j < r@.len() ==> (#[trigger] r@[i]).letter@ != (#[trigger] r@[j]).letter@,
        forall|k: int|
            0 <= k < letter_keys(text@).len() ==> count_letters(r@).contains(
                #[trigger] letter_keys(text@)[k],
            ),
{
    let s = chars_of(text);
    let mut keys: Vec<Vec<char>> = Vec::new();
    let mut counts: Vec<usize> = Vec::new();
    let mut i: usize = 0;
    while i < s.len()
        invariant
            s@ == text@,
            i <= s@.len(),
            keys@.len() == counts@.len(),
            forall|a: int|
                0 <= a < keys@.len() ==> #[trigger] counts@[a] == occurrences(
                    letter_keys(s@.subrange(0, i as int)),
                    keys@[a]@,
                ) && counts@[a] > 0 && counts@[a] <= i,
            forall|a: int, b: int|
                0 <= a < b < keys@.len() ==> (#[trigger] keys@[a])@ != (#[trigger] keys@[b])@,
            forall|k: int|
                0 <= k < letter_keys(s@.subrange(0, i as int)).len() ==> views(keys@).contains(
                    #[trigger] letter_keys(s@.subrange(0, i as int))[k],
                ),
        decreases s.len() - i,
    {
        let ghost prev = letter_keys(s@.subrange(0, i as int));
        assert(s@.subrange(0, i + 1).drop_last() =~= s@.subrange(0, i as int));
        let c = s[i];
        if char_is_alphabetic(c) {
            let key = char_to_lowercase(c);
            let ghost next = prev.push(key@);
            assert(letter_keys(s@.subrange(0, i + 1)) == next);
            let mut found = false;
            let mut j: usize = 0;
            while j < keys.len() && !found
                invariant
                    keys@.len() == counts@.len(),
                    j <= keys@.len(),
                    found ==> j < keys@.len() && keys@[j as int]@ == key@,
                    forall|a: int| 0 <= a < j ==> (#[trigger] keys@[a])@ != key@,
                decreases keys@.len() - j + if found {
                    0int
                } else {
                    1int
                },
            {
                if chars_eq(&keys[j], &key) {
                    found = true;
                } else {
                    j += 1;
                }
            }
            let ghost old_keys = views(keys@);
            assert(next.drop_last() =~= prev);
            if found {
                proof {
                    assert forall|a: int| 0 <= a < keys@.len() && a != j implies occurrences(
                        next,
                        (#[trigger] keys@[a])@,
                    ) == occurrences(prev, keys@[a]@) by {
                        assert(keys@[a]@ != key@) by {
                            if a < j {
                            } else {
                                assert((keys@[a])@ != (keys@[j as int])@ || a == j);
                            }
                        }
                    }
                }
                let c0 = counts[j];
                counts.set(j, c0 + 1);
            } else {
                proof {
                    assert(!prev.contains(key@)) by {
                        if prev.contains(key@) {
                            let k = choose|k: int| 0 <= k < prev.len() && prev[k] == key@;
                            assert(old_keys.contains(prev[k]));
                            let a = choose|a: int| 0 <= a < old_keys.len() && old_keys[a] == prev[k];
                            assert(keys@[a]@ == key@);
                        }
                    }
                    lemma_occurrences_absent(prev, key@);
                }
                keys.push(key);
                counts.push(1);
            }
            proof {
                let nk = views(keys@);
                assert forall|k: int| 0 <= k < next.len() implies nk.contains(#[trigger] next[k]) by {
                    if k < prev.len() {
                        assert(next[k] == prev[k]);
                        assert(old_keys.contains(prev[k]));
                        let a = choose|a: int| 0 <= a < old_keys.len() && old_keys[a] == prev[k];
                        assert(nk[a] == old_keys[a]);
                    } else if found {
                        assert(nk[j as int] == next[k]);
                    } else {
                        assert(nk[nk.len() - 1] == next[k]);
                    }
                }
            }
        }
        i += 1;
    }
    assert(s@.subrange(0, s@.len() as int) =~= s@);
    let mut r: Vec<LetterCount> = Vec::new();
    let mut a: usize = 0;
    while a < keys.len()
        invariant
            r@.len() == a,
            a <= keys@.len(),
            keys@.len() == counts@.len(),
            forall|b: int|
                0 <= b < a ==> (#[trigger] r@[b]).letter@ == keys@[b]@ && r@[b].count == counts@[b],
        decreases keys.len() - a,
    {
        let letter = string_of(&keys[a]);
        r.push(LetterCount { letter, count: counts[a] });
        a += 1;
    }
    assert(count_letters(r@) =~= views(keys@));
    r
}

proof fn lemma_uniform_occurrences(ws: Seq<Seq<char>>, key: Seq<char>)
    requires
        forall|k: int| 0 <= k < ws.len() ==> #[trigger] ws[k] == key,
    ensures
        occurrences(ws, key) == ws.len(),
    decreases ws.len(),
{
    if ws.len() > 0 {
        assert(ws.last() == ws[ws.len() - 1]);
        lemma_uniform_occurrences(ws.drop_last(), key);
    }
}

pub open spec fn pow_nat(b: nat, e: nat) -> nat
    decreases e,
{
    if e == 0 {
        1
    } else {
        b * pow_nat(b, (e - 1) as nat)
    }
}

/// The product, over the entries of `ks`, of how often each occurs in `all`.
/// Over every letter of a text this is the product of `c^c` over its letter
/// counts `c`.
pub open spec fn class_product(ks: Seq<Seq<char>>, all: Seq<Seq<char>>) -> nat
    decreases ks.len(),
{
    if ks.len() == 0 {
        1
    } else {
        class_product(ks.drop_last(), all) * occurrences(all, ks.last())
    }
}

/// The letter entropy is below 1 bit. With `N` letters and counts `c`, the
/// entropy is `log2 N - (1/N) * sum(c * log2 c)`, which is below 1 exactly
/// when `N^N < 2^N * prod(c^c)`.
pub open spec fn entropy_below_one(keys: Seq<Seq<char>>) -> bool {
    let n = keys.len();
    pow_nat(n, n) < pow_nat(2, n) * class_product(keys, keys)
}

/// The letter entropy is above 5.5 bits: exactly when
/// `N^(2N) > 2^(11N) * prod(c^c)^2`, with `2^(11N) = 2048^N`.
pub open spec fn entropy_above_band(keys: Seq<Seq<char>>) -> bool {
    let n = keys.len();
    let p = class_product(keys, keys);
    pow_nat(n, n) * pow_nat(n, n) > pow_nat(2048, n) * (p * p)
}

/// The Shannon entropy of the text's letters lies outside 1.0 to 5.5 bits;
/// a text without letters has entropy 0.
pub open spec fn entropy_out_of_band(t: Seq<char>) -> bool {
    let keys = letter_keys(t);
    keys.len() == 0 || entropy_below_one(keys) || entropy_above_band(keys)
}

fn mul_repeat(a: Vec<u32>, m: u64, times: usize) -> (r: Vec<u32>)
    ensures
        val(r@) == val(a@) * pow_nat(m as nat, times as nat),
{
    let mut cur = a;
    let ghost start = val(cur@);
    let mut k: usize = 0;
    assert(pow_nat(m as nat, 0) == 1);
    assert(start * 1 == start);
    while k < times
        invariant
            k <= times,
            val(cur@) == start * pow_nat(m as nat, k as nat),
        decreases times - k,
    {
        let next = mul_small(&cur, m);
        proof {
            let pk = pow_nat(m as nat, k as nat);
            assert(pow_nat(m as nat, (k + 1) as nat) == m * pk);
            assert(start * pk * m == start * (m * pk)) by (nonlinear_arith);
        }
        cur = next;
        k += 1;
    }
    cur
}

fn letter_keys_of(s: &Vec<char>) -> (r: Vec<Vec<char>>)
    ensures
        views(r@) == letter_keys(s@),
{
    let mut keys: Vec<Vec<char>> = Vec::new();
    let mut i: usize = 0;
    while i < s.len()
        invariant
            i <= s@.len(),
            views(keys@) == letter_keys(s@.subrange(0, i as int)),
        decreases s.len() - i,
    {
        assert(s@.subrange(0, i + 1).drop_last() =~= s@.subrange(0, i as int));
        if char_is_alphabetic(s[i]) {
            let ghost before = views(keys@);
            let key = char_to_lowercase(s[i]);
            keys.push(key);
            assert(views(keys@) =~= before.push(lower_chars(s@[i as int])));
        }
        i += 1;
    }
    assert(s@.subrange(0, s@.len() as int) =~= s@);
    keys
}

fn one() -> (r: Vec<u32>)
    ensures
        val(r@) == 1,
{
    let r = vec![1u32];
    assert(r@.drop_first() =~= Seq::<u32>::empty());
    assert(val(Seq::<u32>::empty()) == 0);
    assert(r@[0] == 1);
    assert(val(r@) == r@[0] as nat + crate::natural::limb_base() * val(r@.drop_first()));
    r
}

/// Whether the Shannon entropy of the text's lower-cased letters lies
/// outside the band of well-formed text, 1.0 to 5.5 bits. Computed exactly,
/// on whole numbers.
pub fn is_entropy_out_of_band(text: &str) -> (r: bool)
    ensures
        r == entropy_out_of_band(text@),
{
    let s = chars_of(text);
    let keys = letter_keys_of(&s);
    let ghost kv = views(keys@);
    let n = keys.len();
    if n == 0 {
        return true;
    }
    let mut prod = one();
    let mut prod2 = one();
    let mut k: usize = 0;
    while k < n
        invariant
            n == keys@.len(),
            kv == views(keys@),
            k <= n,
            val(prod@) == class_product(kv.subrange(0, k as int), kv),
            val(prod2@) == val(prod@) * val(prod@),
        decreases n - k,
    {
        let c = count_word(&keys, &keys[k]);
        proof {
            assert(kv.subrange(0, k + 1).drop_last() =~= kv.subrange(0, k as int));
            assert(kv.subrange(0, k + 1).last() == kv[k as int]);
            let p = val(prod@);
            assert((p * c) * (p * c) == (p * p) * c * c) by (nonlinear_arith);
        }
        prod = mul_small(&prod, c as u64);
        prod2 = mul_small(&prod2, c as u64);
        prod2 = mul_small(&prod2, c as u64);
        k += 1;
    }
    assert(kv.subrange(0, n as int) =~= kv);
    let nn = mul_repeat(one(), n as u64, n);
    let left = mul_repeat(prod, 2, n);
    if less_than(&nn, &left) {
        return true;
    }
    let nn2 = mul_repeat(nn, n as u64, n);
    let right = mul_repeat(prod2, 2048, n);
    less_than(&right, &nn2)
}

proof fn lemma_uniform_class_product(ks: Seq<Seq<char>>, all: Seq<Seq<char>>, key: Seq<char>)
    requires
        forall|k: int| 0 <= k < ks.len() ==> #[trigger] ks[k] == key,
    ensures
        class_product(ks, all) == pow_nat(occurrences(all, key), ks.len()),
    decreases ks.len(),
{
    if ks.len() > 0 {
        assert(ks.last() == ks[ks.len() - 1]);
        lemma_uniform_class_product(ks.drop_last(), all, key);
        let c = occurrences(all, key);
        let p = pow_nat(c, (ks.len() - 1) as nat);
        assert(p * c == c * p) by (nonlinear_arith);
    }
}

proof fn lemma_pow_positive(b: nat, e: nat)
    requires
        b > 0,
    ensures
        pow_nat(b, e) > 0,
    decreases e,
{
    if e > 0 {
        lemma_pow_positive(b, (e - 1) as nat);
        let p = pow_nat(b, (e - 1) as nat);
        assert(b * p > 0) by (nonlinear_arith)
            requires
                b > 0,
                p > 0,
        ;
    }
}

proof fn lemma_pow_two_at_least_two(e: nat)
    requires
        e > 0,
    ensures
        pow_nat(2, e) >= 2,
{
    lemma_pow_positive(2, (e - 1) as nat);
}

/// A text whose letters all fold to the same letter has letter entropy 0,
/// below the floor of 1 bit; so does a text without letters. Such a text of
/// more than 30 characters is rejected as a low-quality transcription.
pub proof fn lemma_one_letter_text_rejected(t: Seq<char>, key: Seq<char>, sample_count: nat)
    requires
        forall|k: int| 0 <= k < letter_keys(t).len() ==> #[trigger] letter_keys(t)[k] == key,
    ensures
        entropy_out_of_band(t),
        t.len() > 30 ==> final_rejection(t, sample_count) == Some(
            RejectReason::LowQualityTranscription,
        ),
{
    let keys = letter_keys(t);
    let n = keys.len();
    if n > 0 {
        lemma_uniform_occurrences(keys, key);
        lemma_uniform_class_product(keys, keys, key);
        lemma_pow_positive(n, n);
        lemma_pow_two_at_least_two(n);
        let q = pow_nat(n, n);
        let two = pow_nat(2, n);
        assert(q < two * q) by (nonlinear_arith)
            requires
                q > 0,
                two >= 2,
        ;
    }
}

} // verus!
