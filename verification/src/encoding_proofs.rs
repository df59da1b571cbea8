//! What holds of the compression scheme.

use crate::encoding::{
    all_lowercase, byte_error, compressed, decimal, decimal_value, expanded, first_error,
    is_digit, is_lowercase, label, leading_digits, lemma_run_length_bounds, repeated, run_length,
};
use vstd::prelude::*;

verus! {

/// The run that a text starts with consists of the text's first byte only,
/// and the byte after the run, if there is one, differs from it.
pub proof fn lemma_run_is_maximal(text: Seq<u8>)
    requires
        text.len() > 0,
    ensures
        1 <= run_length(text) <= text.len(),
        forall|k: int| 0 <= k < run_length(text) ==> #[trigger] text[k] == text[0],
        run_length(text) < text.len() ==> text[run_length(text) as int] != text[0],
    decreases text.len(),
{
    if text.len() >= 2 && text[1] == text[0] {
        let tail = text.skip(1);
        lemma_run_is_maximal(tail);
        assert forall|k: int| 0 <= k < run_length(text) implies #[trigger] text[k] == text[0] by {
            if k > 0 {
                assert(tail[k - 1] == text[k]);
            }
        }
        if run_length(text) < text.len() {
            assert(tail[run_length(tail) as int] == text[run_length(text) as int]);
        }
    }
}

/// A prefix of equal bytes that cannot be extended is the run the text
/// starts with.
pub proof fn lemma_run_length_is(text: Seq<u8>, count: nat)
    requires
        1 <= count <= text.len(),
        forall|k: int| 0 <= k < count ==> #[trigger] text[k] == text[0],
        count == text.len() || text[count as int] != text[0],
    ensures
        run_length(text) == count,
    decreases count,
{
    if count >= 2 {
        let tail = text.skip(1);
        assert(text[1] == text[0]);
        assert forall|k: int| 0 <= k < count - 1 implies #[trigger] tail[k] == tail[0] by {
            assert(tail[k] == text[k + 1]);
        }
        lemma_run_length_is(tail, (count - 1) as nat);
    }
}

/// A number has at least one decimal digit, and far fewer than its value
/// says.
pub proof fn lemma_decimal_len_bound(n: nat)
    ensures
        1 <= decimal(n).len() <= n / 10 + 1,
    decreases n,
{
    if n >= 10 {
        lemma_decimal_len_bound(n / 10);
    }
}

/// Runs of one or two letters are written out; every longer run is written
/// as its length and the letter.
pub proof fn lemma_label_form(letter: u8, count: nat)
    ensures
        count <= 2 ==> label(letter, count) == repeated(letter, count),
        count >= 3 ==> label(letter, count) == decimal(count).push(letter),
{
    lemma_decimal_len_bound(count);
}

/// A label is never longer than the run it stands for.
pub proof fn lemma_label_is_short(letter: u8, count: nat)
    ensures
        label(letter, count).len() <= count,
{
}

/// Appending a run to a text that does not end in the run's letter appends
/// the run's label to the compressed form.
pub proof fn lemma_compressed_append_run(prefix: Seq<u8>, letter: u8, count: nat)
    requires
        count >= 1,
        prefix.len() > 0 ==> prefix.last() != letter,
    ensures
        compressed(prefix + repeated(letter, count)) == compressed(prefix) + label(letter, count),
    decreases prefix.len(),
{
    let run = repeated(letter, count);
    let text = prefix + run;
    if prefix.len() == 0 {
        assert(text =~= run);
        lemma_run_length_is(run, count);
        assert(run.skip(count as int) =~= Seq::<u8>::empty());
        assert(compressed(Seq::<u8>::empty()) =~= Seq::<u8>::empty());
        assert(run[0] == letter);
        assert(compressed(run) =~= label(letter, count));
        assert(compressed(prefix) =~= Seq::<u8>::empty());
    } else {
        lemma_run_is_maximal(prefix);
        let first = run_length(prefix);
        assert forall|k: int| 0 <= k < first implies #[trigger] text[k] == text[0] by {
            assert(text[k] == prefix[k]);
        }
        if first < prefix.len() {
            assert(text[first as int] == prefix[first as int]);
        } else {
            assert(text[first as int] == run[0]);
            assert(prefix.last() == prefix[0]);
        }
        lemma_run_length_is(text, first);
        let rest = prefix.skip(first as int);
        assert(text.skip(first as int) =~= rest + run);
        if rest.len() > 0 {
            assert(rest.last() == prefix.last());
        }
        lemma_compressed_append_run(rest, letter, count);
        assert(compressed(text) =~= compressed(prefix) + label(letter, count));
    }
}

/// Where no byte before `at` is in error, the first error of the text is the
/// error of the byte at `at`.
pub proof fn lemma_first_error_at(text: Seq<u8>, at: int)
    requires
        0 <= at < text.len(),
        forall|k: int| 0 <= k < at ==> byte_error(#[trigger] text[k]) is None,
        byte_error(text[at]) is Some,
    ensures
        first_error(text) == byte_error(text[at]),
    decreases at,
{
    if at > 0 {
        let tail = text.skip(1);
        assert forall|k: int| 0 <= k < at - 1 implies byte_error(#[trigger] tail[k]) is None by {
            assert(tail[k] == text[k + 1]);
        }
        lemma_first_error_at(tail, at - 1);
    }
}

/// The first error of a text says that a byte is not ASCII, not a letter, or
/// not lowercase.
pub proof fn lemma_first_error_kinds(text: Seq<u8>)
    ensures
        first_error(text) matches Some(status) ==> status is NonAscii || status is NonAlphabetic
            || status is NonLowerCase,
    decreases text.len(),
{
    if text.len() > 0 && byte_error(text[0]) is None {
        lemma_first_error_kinds(text.skip(1));
    }
}

/// A text without a first error consists of lowercase letters.
pub proof fn lemma_no_error_is_lowercase(text: Seq<u8>)
    requires
        first_error(text) is None,
    ensures
        all_lowercase(text),
    decreases text.len(),
{
    if text.len() > 0 {
        let tail = text.skip(1);
        lemma_no_error_is_lowercase(tail);
        assert forall|i: int| 0 <= i < text.len() implies is_lowercase(#[trigger] text[i]) by {
            if i > 0 {
                assert(text[i] == tail[i - 1]);
            }
        }
    }
}

/// A text without a byte in error has no first error.
pub proof fn lemma_no_first_error(text: Seq<u8>)
    requires
        forall|k: int| 0 <= k < text.len() ==> byte_error(#[trigger] text[k]) is None,
    ensures
        first_error(text) is None,
    decreases text.len(),
{
    if text.len() > 0 {
        let tail = text.skip(1);
        assert forall|k: int| 0 <= k < tail.len() implies byte_error(#[trigger] tail[k]) is None by {
            assert(tail[k] == text[k + 1]);
        }
        lemma_no_first_error(tail);
    }
}

/// The decimal form of a number consists of digits, at least one.
pub proof fn lemma_decimal_is_digits(n: nat)
    ensures
        decimal(n).len() >= 1,
        forall|i: int| 0 <= i < decimal(n).len() ==> is_digit(#[trigger] decimal(n)[i]),
    decreases n,
{
    if n >= 10 {
        lemma_decimal_is_digits(n / 10);
    }
}

/// The decimal form of a number denotes that number.
pub proof fn lemma_decimal_value(n: nat)
    ensures
        decimal_value(decimal(n)) == n,
    decreases n,
{
    if n < 10 {
        assert(decimal(n).drop_last() =~= Seq::<u8>::empty());
        assert(decimal_value(decimal(n).drop_last()) == 0);
    } else {
        lemma_decimal_value(n / 10);
        assert(decimal(n).drop_last() =~= decimal(n / 10));
    }
}

/// Digits followed by something that does not start with a digit are
/// counted in full as leading digits.
pub proof fn lemma_leading_digits(digits: Seq<u8>, tail: Seq<u8>)
    requires
        forall|i: int| 0 <= i < digits.len() ==> is_digit(#[trigger] digits[i]),
        tail.len() > 0 ==> !is_digit(tail[0]),
    ensures
        leading_digits(digits + tail) == digits.len(),
    decreases digits.len(),
{
    let text = digits + tail;
    if digits.len() == 0 {
        assert(text =~= tail);
    } else {
        assert(text[0] == digits[0]);
        assert(text.skip(1) =~= digits.skip(1) + tail);
        assert forall|i: int| 0 <= i < digits.skip(1).len() implies is_digit(
            #[trigger] digits.skip(1)[i],
        ) by {
            assert(digits.skip(1)[i] == digits[i + 1]);
        }
        lemma_leading_digits(digits.skip(1), tail);
    }
}

/// Letters written out stand for themselves.
pub proof fn lemma_expanded_letters(letter: u8, count: nat, tail: Seq<u8>)
    requires
        !is_digit(letter),
    ensures
        expanded(repeated(letter, count) + tail) == repeated(letter, count) + expanded(tail),
    decreases count,
{
    let coded = repeated(letter, count) + tail;
    if count == 0 {
        assert(coded =~= tail);
        assert(repeated(letter, count) + expanded(tail) =~= expanded(tail));
    } else {
        assert(coded[0] == letter);
        assert(coded.skip(1) =~= repeated(letter, (count - 1) as nat) + tail);
        lemma_expanded_letters(letter, (count - 1) as nat, tail);
        assert(seq![letter] + (repeated(letter, (count - 1) as nat) + expanded(tail)) =~= repeated(
            letter,
            count,
        ) + expanded(tail));
    }
}

/// A label stands for the run it was written for.
pub proof fn lemma_expanded_label(letter: u8, count: nat, tail: Seq<u8>)
    requires
        !is_digit(letter),
    ensures
        expanded(label(letter, count) + tail) == repeated(letter, count) + expanded(tail),
{
    let digits = decimal(count);
    if digits.len() + 1 < count {
        let coded = label(letter, count) + tail;
        let after = seq![letter] + tail;
        lemma_decimal_is_digits(count);
        lemma_decimal_value(count);
        assert(coded =~= digits + after);
        lemma_leading_digits(digits, after);
        assert(coded[digits.len() as int] == letter);
        assert(coded.take(digits.len() as int) =~= digits);
        assert(coded.skip(digits.len() as int + 1) =~= tail);
    } else {
        lemma_expanded_letters(letter, count, tail);
    }
}

/// Expanding the compressed form of lowercase text gives the text back.
pub proof fn lemma_expand_inverts_compress(text: Seq<u8>)
    requires
        all_lowercase(text),
    ensures
        expanded(compressed(text)) == text,
    decreases text.len(),
{
    if text.len() > 0 {
        lemma_run_is_maximal(text);
        let count = run_length(text);
        let rest = text.skip(count as int);
        assert(all_lowercase(rest)) by {
            assert forall|i: int| 0 <= i < rest.len() implies is_lowercase(#[trigger] rest[i]) by {
                assert(rest[i] == text[i + count]);
            }
        }
        lemma_expand_inverts_compress(rest);
        lemma_expanded_label(text[0], count, compressed(rest));
        assert(repeated(text[0], count) + rest =~= text);
    } else {
        assert(compressed(text) =~= Seq::<u8>::empty());
    }
}

/// The compressed form of a text is never longer than the text.
pub proof fn lemma_compressed_is_short(text: Seq<u8>)
    ensures
        compressed(text).len() <= text.len(),
    decreases text.len(),
{
    if text.len() > 0 {
        lemma_run_length_bounds(text);
        lemma_compressed_is_short(text.skip(run_length(text) as int));
    }
}

/// The compressed form of lowercase text holds lowercase letters and decimal
/// digits only.
pub proof fn lemma_compressed_is_plain(text: Seq<u8>)
    requires
        all_lowercase(text),
    ensures
        forall|i: int|
            0 <= i < compressed(text).len() ==> is_lowercase(#[trigger] compressed(text)[i])
                || is_digit(compressed(text)[i]),
    decreases text.len(),
{
    if text.len() > 0 {
        lemma_run_length_bounds(text);
        let count = run_length(text);
        let rest = text.skip(count as int);
        assert forall|i: int| 0 <= i < rest.len() implies is_lowercase(#[trigger] rest[i]) by {
            assert(rest[i] == text[i + count]);
        }
        lemma_compressed_is_plain(rest);
        lemma_decimal_is_digits(count);
        let head = label(text[0], count);
        assert(is_lowercase(text[0]));
        assert forall|i: int| 0 <= i < compressed(text).len() implies is_lowercase(
            #[trigger] compressed(text)[i],
        ) || is_digit(compressed(text)[i]) by {
            if i < head.len() {
                assert(compressed(text)[i] == head[i]);
                if decimal(count).len() + 1 < count && i < decimal(count).len() {
                    assert(head[i] == decimal(count)[i]);
                }
            } else {
                assert(compressed(text)[i] == compressed(rest)[i - head.len()]);
            }
        }
    }
}

} // verus!
