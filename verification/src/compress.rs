//! The compressor: run-length encoding of lowercase text, done in the buffer
//! the text arrives in.

use crate::buffer::{as_slice, buffer_bytes, tail_mut};
use crate::counters::{add_bytes, counted};
use crate::encoding::{
    byte_error, compress_spec, compressed, decimal, is_digit, is_lowercase, label, repeated,
};
use crate::encoding_proofs::{
    lemma_compressed_append_run, lemma_compressed_is_plain, lemma_compressed_is_short,
    lemma_decimal_len_bound, lemma_first_error_at, lemma_no_error_is_lowercase,
    lemma_no_first_error,
};
use crate::message::StatusCode;
use bytes::BytesMut;
use vstd::prelude::*;

verus! {

/// Compresses payloads and counts the bytes that went in and came out.
pub struct Compressor {
    before: u64,
    after: u64,
}

/// What a [`Compressor`] stands for.
pub struct Counters {
    /// The payload bytes handed in for compression.
    pub before: u64,
    /// The payload bytes handed back.
    pub after: u64,
}

impl View for Compressor {
    type V = Counters;

    closed spec fn view(&self) -> Counters {
        Counters { before: self.before, after: self.after }
    }
}

/// The number of decimal digits of `n`.
fn decimal_len(n: usize) -> (digits: usize)
    ensures
        digits == decimal(n as nat).len(),
        digits <= n / 10 + 1,
{
    let mut digits: usize = 1;
    let mut rest: usize = n;
    while rest >= 10
        invariant
            decimal(n as nat).len() == decimal(rest as nat).len() + digits - 1,
            digits + rest <= n + 1,
        decreases rest,
    {
        rest = rest / 10;
        digits = digits + 1;
    }
    proof {
        lemma_decimal_len_bound(n as nat);
    }
    digits
}

/// Why `byte` cannot be compressed, if it cannot.
fn check_byte(byte: u8) -> (error: Option<StatusCode>)
    ensures
        match error {
            Some(status) => byte_error(byte) == Some(status@),
            None => byte_error(byte) is None,
        },
{
    let lowercase = 0x61 <= byte && byte <= 0x7a;
    let uppercase = 0x41 <= byte && byte <= 0x5a;
    if byte >= 0x80 {
        Some(StatusCode::NonAscii)
    } else if !lowercase && !uppercase {
        Some(StatusCode::NonAlphabetic)
    } else if !lowercase {
        Some(StatusCode::NonLowerCase)
    } else {
        None
    }
}

impl Compressor {
    #[verifier::type_invariant]
    spec fn well_formed(self) -> bool {
        self.after <= self.before
    }

    /// A compressor that has counted nothing.
    pub fn new() -> (compressor: Compressor)
        ensures
            compressor@ == (Counters { before: 0, after: 0 }),
    {
        Compressor { before: 0, after: 0 }
    }

    /// The bytes that went into compression and the bytes that came out of it
    /// since the counters were last reset. No more comes out than goes in.
    pub fn get_stats(&self) -> (stats: (u64, u64))
        ensures
            stats == (self@.before, self@.after),
            stats.1 <= stats.0,
    {
        proof {
            use_type_invariant(self);
        }
        (self.before, self.after)
    }

    /// Sets both counters to zero.
    pub fn reset_stats(&mut self)
        ensures
            final(self)@ == (Counters { before: 0, after: 0 }),
    {
        proof {
            use_type_invariant(&*self);
        }
        self.after = 0;
        self.before = 0;
    }

    /// Compresses `buffer` in place and returns the compressed bytes, or the
    /// error of the first byte that is not a lowercase letter; an empty
    /// buffer is an error too.
    ///
    /// On success the counters grow by the number of bytes that went in and
    /// came out. On failure they stay as they were.
    pub fn compress(&mut self, buffer: BytesMut) -> (result: Result<BytesMut, StatusCode>)
        ensures
            match compress_spec(buffer_bytes(buffer)) {
                Ok(coded) => {
                    &&& result matches Ok(output)
                    &&& buffer_bytes(output) == coded
                    &&& coded.len() <= buffer_bytes(buffer).len()
                    &&& forall|i: int|
                        0 <= i < coded.len() ==> is_lowercase(#[trigger] coded[i]) || is_digit(
                            coded[i],
                        )
                    &&& final(self)@ == (Counters {
                        before: counted(old(self)@.before, buffer_bytes(buffer).len()),
                        after: counted(old(self)@.after, coded.len()),
                    })
                },
                Err(status) => {
                    &&& result matches Err(error)
                    &&& error@ == status
                    &&& final(self)@ == old(self)@
                },
            },
    {
        let mut data = buffer;
        let ghost text = buffer_bytes(buffer);
        if data.is_empty() {
            return Err(StatusCode::EmptyBuffer);
        }
        let len = data.len();

        let mut working: u8 = as_slice(&data)[0];
        let mut count: usize = 0;
        let mut end: usize = 0;

        for i in 0..len
            invariant
                text == buffer_bytes(buffer),
                0 < len == text.len(),
                buffer_bytes(data).len() == len,
                count <= i,
                end <= i - count,
                i == 0 ==> count == 0 && working == text[0],
                i > 0 ==> count >= 1,
                forall|k: int| i <= k < len ==> buffer_bytes(data)[k] == text[k],
                forall|k: int| 0 <= k < i ==> byte_error(#[trigger] text[k]) is None,
                forall|k: int| i - count <= k < i ==> text[k] == working,
                i - count > 0 ==> text[i - count - 1] != working,
                buffer_bytes(data).take(end as int) == compressed(text.take(i - count)),
                *self == *old(self),
        {
            let current: u8 = as_slice(&data)[i];

            if let Some(error) = check_byte(current) {
                proof {
                    lemma_first_error_at(text, i as int);
                }
                return Err(error);
            }
            if current == working {
                count = count + 1;
            } else {
                let ghost held = buffer_bytes(data);
                let written = Self::write_label(working, count, tail_mut(&mut data, end));
                proof {
                    let start = i - count;
                    lemma_compressed_append_run(text.take(start), working, count as nat);
                    assert(text.take(i as int) =~= text.take(start) + repeated(
                        working,
                        count as nat,
                    ));
                    assert(buffer_bytes(data).take(end + written) =~= held.take(end as int)
                        + label(working, count as nat));
                    assert forall|k: int| i <= k < len implies buffer_bytes(data)[k]
                        == text[k] by {
                        assert(buffer_bytes(data)[k] == held.skip(end as int).skip(
                            written as int,
                        )[k - end - written]);
                    }
                }
                end = end + written;
                working = current;
                count = 1;
            }
        }

        let ghost held = buffer_bytes(data);
        let written = Self::write_label(working, count, tail_mut(&mut data, end));
        proof {
            let start = len - count;
            lemma_compressed_append_run(text.take(start), working, count as nat);
            assert(text =~= text.take(start) + repeated(working, count as nat));
            assert(buffer_bytes(data).take(end + written) =~= held.take(end as int) + label(
                working,
                count as nat,
            ));
            lemma_no_first_error(text);
            lemma_no_error_is_lowercase(text);
            lemma_compressed_is_short(text);
            lemma_compressed_is_plain(text);
            use_type_invariant(&*self);
        }
        end = end + written;

        self.before = add_bytes(self.before, len);
        self.after = add_bytes(self.after, end);

        Ok(data.split_to(end))
    }

    /// Writes the label of a run of `count` copies of `letter` to the front
    /// of `buffer` and returns the label's length. The bytes after the label
    /// stay as they were. The buffer must hold the label; it need not hold
    /// the run.
    pub fn write_label(letter: u8, count: usize, buffer: &mut [u8]) -> (written: usize)
        requires
            label(letter, count as nat).len() <= old(buffer)@.len(),
        ensures
            written == label(letter, count as nat).len(),
            written <= count,
            final(buffer)@ == label(letter, count as nat) + old(buffer)@.skip(written as int),
    {
        let digits = decimal_len(count);
        let length = digits + 1;
        if length < count {
            let ghost text = decimal(count as nat);
            let mut rest: usize = count;
            let mut at: usize = digits;
            while at > 0
                invariant
                    text == decimal(count as nat),
                    at <= digits == text.len(),
                    digits < buffer@.len(),
                    buffer@.len() == old(buffer)@.len(),
                    at > 0 ==> decimal(rest as nat) == text.take(at as int),
                    forall|k: int| at <= k < digits ==> buffer@[k] == text[k],
                    forall|k: int| digits <= k < buffer@.len() ==> buffer@[k] == old(buffer)@[k],
                decreases at,
            {
                proof {
                    assert(text.take(at as int).len() == at);
                    assert(text.take(at as int).last() == text[at - 1]);
                    if rest >= 10 {
                        assert(text.take(at as int).drop_last() =~= text.take(at - 1));
                        assert(decimal((rest / 10) as nat).push((0x30 + rest % 10) as u8).drop_last()
                            =~= decimal((rest / 10) as nat));
                    }
                }
                at = at - 1;
                buffer[at] = 0x30 + (rest % 10) as u8;
                rest = rest / 10;
            }
            buffer[digits] = letter;
            proof {
                assert(buffer@ =~= text.push(letter) + old(buffer)@.skip(digits + 1));
            }
            length
        } else {
            let mut i: usize = 0;
            while i < count
                invariant
                    i <= count <= buffer@.len(),
                    buffer@.len() == old(buffer)@.len(),
                    forall|k: int| 0 <= k < i ==> buffer@[k] == letter,
                    forall|k: int| count <= k < buffer@.len() ==> buffer@[k] == old(buffer)@[k],
                decreases count - i,
            {
                buffer[i] = letter;
                i = i + 1;
            }
            proof {
                assert(buffer@ =~= repeated(letter, count as nat) + old(buffer)@.skip(count as int));
            }
            count
        }
    }
}

} // verus!
