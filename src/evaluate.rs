//! Measuring a filter against a corpus of lines: the lines themselves must
//! all be found, and strings longer than every line must mostly not be.
use vstd::prelude::*;
use vstd::string::StrSliceExecFns;
use crate::filter::{
    lemma_added_holds, lemma_held_stays, lemma_insert_all_wf, BloomError, BloomFilter, FilterState,
};
use crate::key::BloomKey;

verus! {

/// The decimal digit `d`.
pub open spec fn digit_char(d: nat) -> char {
    ((48 + d) as u8) as char
}

/// The decimal numeral of `n`, without sign or leading zeros.
pub open spec fn decimal_of(n: nat) -> Seq<char>
    decreases n,
{
    if n < 10 {
        seq![digit_char(n)]
    } else {
        decimal_of(n / 10).push(digit_char(n % 10))
    }
}

/// Relies on `ToString` for `usize`: the decimal numeral of `n`.
#[verifier::external_body]
fn decimal(n: usize) -> (r: String)
    ensures
        r@ == decimal_of(n as nat),
{
    n.to_string()
}

/// Relies on `String::push_str`: `t` is appended to `s`.
#[verifier::external_body]
fn push_text(s: &mut String, t: &str)
    ensures
        final(s)@ == old(s)@ + t@,
{
    s.push_str(t)
}

/// The contents of the items of `lines`, as the filter hashes them.
pub open spec fn line_keys(lines: Seq<String>) -> Seq<Seq<u8>> {
    lines.map_values(|l: String| l.key_bytes())
}

/// The texts of `lines`.
pub open spec fn line_texts(lines: Seq<String>) -> Seq<Seq<char>> {
    lines.map_values(|l: String| l@)
}

/// The first of the longest texts (by characters), or the empty text when
/// there is none.
pub open spec fn longest_text(texts: Seq<Seq<char>>) -> Seq<char>
    decreases texts.len(),
{
    if texts.len() == 0 {
        Seq::empty()
    } else {
        let best = longest_text(texts.drop_last());
        if texts.last().len() > best.len() {
            texts.last()
        } else {
            best
        }
    }
}

/// The `n` strings that stand for absent items: `base` followed by the
/// numeral of `0`, `1`, ... `n - 1`, as the filter hashes them.
pub open spec fn absent_keys(base: Seq<char>, n: nat) -> Seq<Seq<u8>> {
    Seq::new(n, |i: int| vstd::utf8::encode_utf8(base + decimal_of(i as nat)))
}

/// How many of `keys` the filter `s` answers "present" for.
pub open spec fn count_held(s: FilterState, keys: Seq<Seq<u8>>) -> nat
    decreases keys.len(),
{
    if keys.len() == 0 {
        0
    } else {
        count_held(s, keys.drop_last()) + if s.holds(keys.last()) {
            1nat
        } else {
            0nat
        }
    }
}

/// The longest text is at least as long as each text.
pub proof fn lemma_longest_is_longest(texts: Seq<Seq<char>>, j: int)
    requires
        0 <= j < texts.len(),
    ensures
        longest_text(texts).len() >= texts[j].len(),
    decreases texts.len(),
{
    if j < texts.len() - 1 {
        lemma_longest_is_longest(texts.drop_last(), j);
    }
}

/// Each string that stands for an absent item is longer than every line,
/// so none of them is a line.
pub proof fn lemma_absent_longer(texts: Seq<Seq<char>>, j: int, n: nat)
    requires
        0 <= j < texts.len(),
    ensures
        (longest_text(texts) + decimal_of(n)).len() > texts[j].len(),
        longest_text(texts) + decimal_of(n) != texts[j],
{
    lemma_longest_is_longest(texts, j);
    assert(decimal_of(n).len() >= 1);
}

/// After a run of items is added, the filter answers "present" for each of
/// them.
pub proof fn lemma_all_added_hold(s: FilterState, keys: Seq<Seq<u8>>, j: int)
    requires
        s.wf(),
        0 <= j < keys.len(),
    ensures
        s.insert_all(keys).holds(keys[j]),
    decreases keys.len(),
{
    let before = s.insert_all(keys.drop_last());
    lemma_insert_all_wf(s, keys.drop_last());
    if j == keys.len() - 1 {
        lemma_added_holds(before, keys.last());
    } else {
        lemma_all_added_hold(s, keys.drop_last(), j);
        let rest = seq![keys.last()];
        assert(keys.drop_last()[j] == keys[j]);
        lemma_held_stays(before, keys[j], rest);
        assert(rest.drop_last() =~= Seq::<Seq<u8>>::empty());
        assert(before.insert_all(rest.drop_last()) == before);
        assert(before.insert_all(rest) == before.insert(keys.last()));
    }
}

/// Where the filter answers "present" for every key, the count is the
/// number of keys.
pub proof fn lemma_count_all_held(s: FilterState, keys: Seq<Seq<u8>>)
    requires
        forall|j: int| 0 <= j < keys.len() ==> s.holds(#[trigger] keys[j]),
    ensures
        count_held(s, keys) == keys.len(),
    decreases keys.len(),
{
    if keys.len() > 0 {
        assert(s.holds(keys[keys.len() - 1]));
        lemma_count_all_held(s, keys.drop_last());
    }
}

/// A filter built from a corpus finds every line of it: the evaluation
/// counts no false negatives.
pub proof fn lemma_corpus_found(s: FilterState, lines: Seq<String>)
    requires
        s.wf(),
    ensures
        count_held(s.insert_all(line_keys(lines)), line_keys(lines)) == lines.len(),
{
    let keys = line_keys(lines);
    assert forall|j: int| 0 <= j < keys.len() implies s.insert_all(keys).holds(#[trigger] keys[j]) by {
        lemma_all_added_hold(s, keys, j);
    }
    lemma_count_all_held(s.insert_all(keys), keys);
}

/// The four counts of one evaluation.
#[derive(Debug, Clone, Copy, PartialEq, Eq, Structural)]
pub struct CheckReport {
    /// Corpus lines found present.
    pub true_positives: usize,
    /// Corpus lines found absent.
    pub false_negatives: usize,
    /// Absent strings found present.
    pub false_positives: usize,
    /// Absent strings found absent.
    pub true_negatives: usize,
}

/// A filter of `bit_vec_size` flags for `capacity` items, with
/// `hash_count` probes (at least one), holding every line of `lines`.
pub fn filter_from_lines(
    lines: &Vec<String>,
    capacity: usize,
    bit_vec_size: usize,
    hash_count: usize,
) -> (r: Result<BloomFilter<String>, BloomError>)
    ensures
        r is Err <==> (capacity == 0 || bit_vec_size == 0),
        r is Err ==> r->Err_0 == BloomError::InvalidParameter,
        r is Ok ==> r->Ok_0.wf(),
        r is Ok ==> r->Ok_0@ == FilterState::empty(
            bit_vec_size as nat,
            if hash_count == 0 { 1 } else { hash_count as nat },
        ).insert_all(line_keys(lines@)),
{
    let mut filter = match BloomFilter::<String>::new(capacity, bit_vec_size, hash_count) {
        Ok(f) => f,
        Err(e) => return Err(e),
    };
    let ghost start = filter@;
    let ghost keys = line_keys(lines@);
    let mut i: usize = 0;
    while i < lines.len()
        invariant
            filter.wf(),
            keys == line_keys(lines@),
            0 <= i <= lines.len(),
            filter@ == start.insert_all(keys.take(i as int)),
        decreases lines.len() - i,
    {
        filter.add(&lines[i]);
        assert(keys.take(i + 1).drop_last() =~= keys.take(i as int));
        i = i + 1;
    }
    assert(keys.take(i as int) =~= keys);
    Ok(filter)
}

/// Classifies every line of `lines`, then `filter.size()` strings that are
/// each the longest line followed by a numeral, and so are longer than any
/// line.
pub fn check_lines(lines: &Vec<String>, filter: &BloomFilter<String>) -> (r: CheckReport)
    requires
        filter.wf(),
    ensures
        r.true_positives == count_held(filter@, line_keys(lines@)),
        r.true_positives + r.false_negatives == lines.len(),
        r.false_positives == count_held(
            filter@,
            absent_keys(longest_text(line_texts(lines@)), filter@.bits.len()),
        ),
        r.false_positives + r.true_negatives == filter@.bits.len(),
{
    let ghost keys = line_keys(lines@);
    let ghost texts = line_texts(lines@);
    let mut true_positives: usize = 0;
    let mut false_negatives: usize = 0;
    let mut longest = String::new();
    let mut longest_len: usize = 0;
    let mut i: usize = 0;
    while i < lines.len()
        invariant
            filter.wf(),
            keys == line_keys(lines@),
            texts == line_texts(lines@),
            0 <= i <= lines.len(),
            true_positives == count_held(filter@, keys.take(i as int)),
            true_positives + false_negatives == i,
            longest@ == longest_text(texts.take(i as int)),
            longest_len == longest@.len(),
        decreases lines.len() - i,
    {
        let line = &lines[i];
        if filter.contains(line) {
            true_positives = true_positives + 1;
        } else {
            false_negatives = false_negatives + 1;
        }
        let len = line.as_str().unicode_len();
        if len > longest_len {
            longest = line.clone();
            longest_len = len;
        }
        assert(keys.take(i + 1).drop_last() =~= keys.take(i as int));
        assert(texts.take(i + 1).drop_last() =~= texts.take(i as int));
        i = i + 1;
    }
    assert(keys.take(i as int) =~= keys);
    assert(texts.take(i as int) =~= texts);

    let size = filter.size();
    let ghost absent = absent_keys(longest@, size as nat);
    let mut false_positives: usize = 0;
    let mut true_negatives: usize = 0;
    let mut n: usize = 0;
    while n < size
        invariant
            filter.wf(),
            size == filter@.bits.len(),
            absent == absent_keys(longest@, size as nat),
            0 <= n <= size,
            false_positives == count_held(filter@, absent.take(n as int)),
            false_positives + true_negatives == n,
        decreases size - n,
    {
        let mut candidate = longest.clone();
        let numeral = decimal(n);
        push_text(&mut candidate, numeral.as_str());
        if filter.contains(&candidate) {
            false_positives = false_positives + 1;
        } else {
            true_negatives = true_negatives + 1;
        }
        assert(absent.take(n + 1).drop_last() =~= absent.take(n as int));
        n = n + 1;
    }
    assert(absent.take(n as int) =~= absent);
    CheckReport { true_positives, false_negatives, false_positives, true_negatives }
}

} // verus!
