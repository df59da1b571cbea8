//! The compression scheme, as mathematics.
//!
//! The input is cut into maximal runs of one letter. A run is written either
//! as its letters or as its length in decimal followed by the letter,
//! whichever is shorter; on a tie the letters win.

use crate::message::Status;
use vstd::prelude::*;

verus! {

/// Whether a byte is an ASCII lowercase letter.
pub open spec fn is_lowercase(byte: u8) -> bool {
    0x61 <= byte <= 0x7a
}

/// Whether a byte is an ASCII uppercase letter.
pub open spec fn is_uppercase(byte: u8) -> bool {
    0x41 <= byte <= 0x5a
}

/// Whether a byte is an ASCII decimal digit.
pub open spec fn is_digit(byte: u8) -> bool {
    0x30 <= byte <= 0x39
}

/// Whether every byte is an ASCII lowercase letter.
pub open spec fn all_lowercase(text: Seq<u8>) -> bool {
    forall|i: int| 0 <= i < text.len() ==> is_lowercase(#[trigger] text[i])
}

/// Why a byte cannot be compressed, if it cannot.
pub open spec fn byte_error(byte: u8) -> Option<Status> {
    if byte >= 0x80 {
        Some(Status::NonAscii)
    } else if !is_lowercase(byte) && !is_uppercase(byte) {
        Some(Status::NonAlphabetic)
    } else if !is_lowercase(byte) {
        Some(Status::NonLowerCase)
    } else {
        None
    }
}

/// The error of the first byte that cannot be compressed, if there is one.
pub open spec fn first_error(text: Seq<u8>) -> Option<Status>
    decreases text.len(),
{
    if text.len() == 0 {
        None
    } else if byte_error(text[0]) is Some {
        byte_error(text[0])
    } else {
        first_error(text.skip(1))
    }
}

/// The ASCII decimal digits of `n`, most significant first.
pub open spec fn decimal(n: nat) -> Seq<u8>
    decreases n,
{
    if n < 10 {
        seq![(0x30 + n) as u8]
    } else {
        decimal(n / 10).push((0x30 + n % 10) as u8)
    }
}

/// `count` copies of `letter`.
pub open spec fn repeated(letter: u8, count: nat) -> Seq<u8> {
    Seq::new(count, |i: int| letter)
}

/// How a run of `count` copies of `letter` is written: the count in decimal
/// and the letter where that is strictly shorter, the letters otherwise.
pub open spec fn label(letter: u8, count: nat) -> Seq<u8> {
    if decimal(count).len() + 1 < count {
        decimal(count).push(letter)
    } else {
        repeated(letter, count)
    }
}

/// The length of the maximal run that `text` starts with.
pub open spec fn run_length(text: Seq<u8>) -> nat
    decreases text.len(),
{
    if text.len() == 0 {
        0
    } else if text.len() >= 2 && text[1] == text[0] {
        1 + run_length(text.skip(1))
    } else {
        1
    }
}

/// A run is never longer than the text, and never empty unless the text is.
pub proof fn lemma_run_length_bounds(text: Seq<u8>)
    ensures
        run_length(text) <= text.len(),
        text.len() > 0 ==> run_length(text) >= 1,
    decreases text.len(),
{
    if text.len() >= 2 && text[1] == text[0] {
        lemma_run_length_bounds(text.skip(1));
    }
}

/// The compressed form of `text`: the labels of its maximal runs, in order.
pub open spec fn compressed(text: Seq<u8>) -> Seq<u8>
    decreases text.len(),
{
    if text.len() == 0 {
        Seq::empty()
    } else {
        proof {
            lemma_run_length_bounds(text);
        }
        let count = run_length(text);
        label(text[0], count) + compressed(text.skip(count as int))
    }
}

/// What compressing `text` yields: an error for empty input and for input
/// that holds anything but lowercase letters, the compressed form otherwise.
pub open spec fn compress_spec(text: Seq<u8>) -> Result<Seq<u8>, Status> {
    if text.len() == 0 {
        Err(Status::EmptyBuffer)
    } else {
        match first_error(text) {
            Some(status) => Err(status),
            None => Ok(compressed(text)),
        }
    }
}

/// The number of decimal digits that `text` starts with.
pub open spec fn leading_digits(text: Seq<u8>) -> nat
    decreases text.len(),
{
    if text.len() > 0 && is_digit(text[0]) {
        1 + leading_digits(text.skip(1))
    } else {
        0
    }
}

/// The number that a sequence of decimal digits denotes.
pub open spec fn decimal_value(digits: Seq<u8>) -> nat
    decreases digits.len(),
{
    if digits.len() == 0 {
        0
    } else {
        decimal_value(digits.drop_last()) * 10 + (digits.last() - 0x30) as nat
    }
}

/// The text that a compressed form stands for: digits followed by a letter
/// become that many copies of the letter, any other byte stands for itself.
pub open spec fn expanded(coded: Seq<u8>) -> Seq<u8>
    decreases coded.len(),
{
    if coded.len() == 0 {
        Seq::empty()
    } else {
        let digits = leading_digits(coded);
        if digits == 0 {
            seq![coded[0]] + expanded(coded.skip(1))
        } else if digits < coded.len() {
            repeated(coded[digits as int], decimal_value(coded.take(digits as int)))
                + expanded(coded.skip(digits as int + 1))
        } else {
            Seq::empty()
        }
    }
}

} // verus!
