//! Counting lines, words, bytes, and characters in an in-memory byte stream.
//!
//! The counts are specified over the byte sequence: a line ends at a line
//! feed (a trailing fragment without one still counts as a line), a word is
//! a maximal run of non-whitespace bytes, and a character is a UTF-8 scalar,
//! recognized by its leading byte.

use vstd::prelude::*;
use vstd::utf8::char_u32_cast;
use vstd::utf8::decode_first_scalar;
use vstd::utf8::decode_utf8;
use vstd::utf8::decode_utf8_first_scalar;
use vstd::utf8::encode_scalar;
use vstd::utf8::is_continuation_byte;
use vstd::utf8::length_of_first_scalar;
use vstd::utf8::pop_first_scalar;
use vstd::utf8::take_first_scalar;
use vstd::utf8::valid_first_scalar;
use vstd::utf8::valid_leading_and_continuation_bytes_first_codepoint;
use vstd::utf8::valid_utf8;
use crate::tally::FileInfo;

verus! {

/// True of the bytes that delimit words: the ASCII whitespace characters
/// (tab, line feed, vertical tab, form feed, carriage return, space).
pub open spec fn is_space_byte(b: u8) -> bool {
    b == 0x20 || (0x09 <= b && b <= 0x0d)
}

/// The number of line-feed bytes in `s`.
pub open spec fn newline_count(s: Seq<u8>) -> nat
    decreases s.len(),
{
    if s.len() == 0 {
        0
    } else {
        newline_count(s.drop_last()) + if s.last() == 0x0a {
            1nat
        } else {
            0nat
        }
    }
}

/// The number of lines in `s`: one per line terminator, plus one for a
/// non-empty trailing fragment that lacks a terminator.
pub open spec fn line_count(s: Seq<u8>) -> nat {
    newline_count(s) + if s.len() > 0 && s.last() != 0x0a {
        1nat
    } else {
        0nat
    }
}

/// The number of whitespace-delimited words in `s`: one per position that
/// starts a maximal run of non-whitespace bytes.
pub open spec fn word_count(s: Seq<u8>) -> nat
    decreases s.len(),
{
    if s.len() == 0 {
        0
    } else {
        word_count(s.drop_last()) + if !is_space_byte(s.last()) && (s.len() == 1 || is_space_byte(
            s[s.len() - 2],
        )) {
            1nat
        } else {
            0nat
        }
    }
}

/// The number of UTF-8 scalar values started in `s`: every byte that is not
/// a continuation byte begins one. On well-formed UTF-8 this is exactly the
/// number of decoded characters (`lemma_char_count_is_decoded_length`).
pub open spec fn char_count(s: Seq<u8>) -> nat
    decreases s.len(),
{
    if s.len() == 0 {
        0
    } else {
        char_count(s.drop_last()) + if is_continuation_byte(s.last()) {
            0nat
        } else {
            1nat
        }
    }
}

/// None of the counts can exceed the number of bytes counted.
pub proof fn lemma_counts_bounded(s: Seq<u8>)
    ensures
        newline_count(s) <= s.len(),
        word_count(s) <= s.len(),
        char_count(s) <= s.len(),
        line_count(s) <= s.len(),
    decreases s.len(),
{
    if s.len() > 0 {
        lemma_counts_bounded(s.drop_last());
    }
}

/// Splitting a byte sequence splits the character count.
pub proof fn lemma_char_count_concat(a: Seq<u8>, b: Seq<u8>)
    ensures
        char_count(a + b) == char_count(a) + char_count(b),
    decreases b.len(),
{
    if b.len() == 0 {
        assert(a + b =~= a);
    } else {
        assert((a + b).drop_last() =~= a + b.drop_last());
        assert((a + b).last() == b.last());
        lemma_char_count_concat(a, b.drop_last());
    }
}

/// On well-formed UTF-8, counting leading bytes counts exactly the decoded
/// Unicode scalar values.
pub proof fn lemma_char_count_is_decoded_length(s: Seq<u8>)
    requires
        valid_utf8(s),
    ensures
        char_count(s) == decode_utf8(s).len(),
    decreases s.len(),
{
    if s.len() > 0 {
        let k = length_of_first_scalar(s);
        let head = take_first_scalar(s);
        let tail = pop_first_scalar(s);
        assert(valid_first_scalar(s));
        assert(valid_leading_and_continuation_bytes_first_codepoint(s));
        assert(1 <= k && k <= s.len());
        assert(head.len() == k);
        assert(s =~= head + tail);
        assert(char_count(head) == 1) by {
            assert(head[0] == s[0]);
            assert(!is_continuation_byte(head[0]));
            assert(char_count(Seq::<u8>::empty()) == 0);
            assert(head.take(1).last() == head[0]);
            assert(head.take(1).drop_last() =~= Seq::<u8>::empty());
            assert(char_count(head.take(1)) == 1);
            if k >= 2 {
                assert(is_continuation_byte(head[1]));
                assert(head.take(2).drop_last() =~= head.take(1));
                assert(char_count(head.take(2)) == 1);
            }
            if k >= 3 {
                assert(is_continuation_byte(head[2]));
                assert(head.take(3).drop_last() =~= head.take(2));
                assert(char_count(head.take(3)) == 1);
            }
            if k >= 4 {
                assert(is_continuation_byte(head[3]));
                assert(head.take(4).drop_last() =~= head.take(3));
                assert(char_count(head.take(4)) == 1);
            }
            assert(head.take(k) =~= head);
        }
        lemma_char_count_concat(head, tail);
        lemma_char_count_is_decoded_length(tail);
    }
}

/// The number of line-feed characters in a decoded text.
pub open spec fn newline_char_count(chars: Seq<char>) -> nat
    decreases chars.len(),
{
    if chars.len() == 0 {
        0
    } else {
        newline_char_count(chars.drop_last()) + if chars.last() == '\n' {
            1nat
        } else {
            0nat
        }
    }
}

/// Splitting a byte sequence splits the line-feed count.
pub proof fn lemma_newline_count_concat(a: Seq<u8>, b: Seq<u8>)
    ensures
        newline_count(a + b) == newline_count(a) + newline_count(b),
    decreases b.len(),
{
    if b.len() == 0 {
        assert(a + b =~= a);
    } else {
        assert((a + b).drop_last() =~= a + b.drop_last());
        assert((a + b).last() == b.last());
        lemma_newline_count_concat(a, b.drop_last());
    }
}

/// Splitting a character sequence splits the line-feed count.
pub proof fn lemma_newline_char_count_concat(a: Seq<char>, b: Seq<char>)
    ensures
        newline_char_count(a + b) == newline_char_count(a) + newline_char_count(b),
    decreases b.len(),
{
    if b.len() == 0 {
        assert(a + b =~= a);
    } else {
        assert((a + b).drop_last() =~= a + b.drop_last());
        assert((a + b).last() == b.last());
        lemma_newline_char_count_concat(a, b.drop_last());
    }
}

/// A byte sequence without a line-feed byte has a line-feed count of zero.
proof fn lemma_newline_count_zero(s: Seq<u8>)
    requires
        forall|i: int| 0 <= i < s.len() ==> s[i] != 0x0a,
    ensures
        newline_count(s) == 0,
    decreases s.len(),
{
    if s.len() > 0 {
        lemma_newline_count_zero(s.drop_last());
    }
}

/// On well-formed UTF-8, the line-feed bytes are exactly the line-feed
/// characters of the decoded text: line counting over the bytes agrees with
/// line counting over the decoded Unicode scalar values.
pub proof fn lemma_newline_count_decodes(s: Seq<u8>)
    requires
        valid_utf8(s),
    ensures
        newline_count(s) == newline_char_count(decode_utf8(s)),
    decreases s.len(),
{
    if s.len() > 0 {
        let k = length_of_first_scalar(s);
        let head = take_first_scalar(s);
        let tail = pop_first_scalar(s);
        let c = decode_first_scalar(s) as char;
        assert(valid_first_scalar(s));
        assert(valid_leading_and_continuation_bytes_first_codepoint(s));
        assert(1 <= k && k <= s.len());
        assert(s =~= head + tail);
        assert(encode_scalar(c as u32) == head) by {
            decode_utf8_first_scalar(s);
        }
        assert('\n' as u32 == 10);
        assert(newline_count(head) == if c == '\n' {
            1nat
        } else {
            0nat
        }) by {
            if c == '\n' {
                assert((10u32 & 0x7f) == 10) by (bit_vector);
                assert(head =~= seq![0x0au8]);
                assert(head.drop_last() =~= Seq::<u8>::empty());
                assert(newline_count(Seq::<u8>::empty()) == 0);
                assert(head.last() == 0x0au8);
                assert(newline_count(head) == 1);
            } else {
                assert(forall|i: int| 0 <= i < head.len() ==> head[i] != 0x0a) by {
                    if k == 1 {
                        if s[0] == 0x0a {
                            assert((0x0au8 & 0x7f) as u32 == 10) by (bit_vector);
                            assert(decode_first_scalar(s) == 10);
                            char_u32_cast('\n', 10);
                            assert(c == '\n');
                        }
                        assert(head[0] == s[0]);
                    }
                }
                lemma_newline_count_zero(head);
            }
        }
        lemma_newline_count_concat(head, tail);
        lemma_newline_count_decodes(tail);
        let decoded = decode_utf8(s);
        assert(valid_utf8(tail));
        assert(decoded =~= seq![c] + decode_utf8(tail));
        lemma_newline_char_count_concat(seq![c], decode_utf8(tail));
        assert(seq![c].drop_last() =~= Seq::<char>::empty());
        assert(newline_char_count(Seq::<char>::empty()) == 0);
        assert(seq![c].last() == c);
        assert(newline_char_count(seq![c]) == if c == '\n' {
            1nat
        } else {
            0nat
        });
    }
}

/// Collapsing repeated whitespace does not change the word count: dropping
/// a whitespace byte that follows another whitespace byte leaves the number
/// of words as it was.
pub proof fn lemma_word_count_collapse(a: Seq<u8>, w: u8, v: u8, b: Seq<u8>)
    requires
        is_space_byte(w),
        is_space_byte(v),
    ensures
        word_count(a + seq![w, v] + b) == word_count(a + seq![w] + b),
    decreases b.len(),
{
    let long = a + seq![w, v] + b;
    let short = a + seq![w] + b;
    if b.len() == 0 {
        assert(long.drop_last() =~= short);
        assert(long.last() == v);
    } else {
        lemma_word_count_collapse(a, w, v, b.drop_last());
        assert(long.drop_last() =~= a + seq![w, v] + b.drop_last());
        assert(short.drop_last() =~= a + seq![w] + b.drop_last());
        assert(long.last() == b.last());
        assert(short.last() == b.last());
        if b.len() == 1 {
            assert(long[long.len() - 2] == v);
            assert(short[short.len() - 2] == w);
        } else {
            assert(long[long.len() - 2] == b[b.len() - 2]);
            assert(short[short.len() - 2] == b[b.len() - 2]);
        }
    }
}

/// True exactly when `b` is an ASCII whitespace byte.
pub fn byte_is_space(b: u8) -> (r: bool)
    ensures
        r == is_space_byte(b),
{
    b == 0x20 || (0x09 <= b && b <= 0x0d)
}

/// Count the lines, words, bytes, and UTF-8 characters of `data`.
///
/// Every field of the result is pinned to its specification: the byte count
/// is exactly the input length, and the other three follow `line_count`,
/// `word_count`, and `char_count` of the byte sequence.
pub fn count(data: &[u8]) -> (info: FileInfo)
    ensures
        info.num_lines == line_count(data@),
        info.num_words == word_count(data@),
        info.num_bytes == data@.len(),
        info.num_chars == char_count(data@),
{
    let n = data.len();
    let mut newlines: usize = 0;
    let mut num_words: usize = 0;
    let mut num_chars: usize = 0;
    let mut i: usize = 0;
    while i < n
        invariant
            n == data@.len(),
            i <= n,
            newlines == newline_count(data@.take(i as int)),
            num_words == word_count(data@.take(i as int)),
            num_chars == char_count(data@.take(i as int)),
            newlines <= i,
            num_words <= i,
            num_chars <= i,
        decreases n - i,
    {
        let b = data[i];
        proof {
            assert(data@.take(i + 1) =~= data@.take(i as int).push(data@[i as int]));
            assert(data@.take(i + 1).drop_last() =~= data@.take(i as int));
        }
        if b == 0x0a {
            newlines = newlines + 1;
        }
        if !byte_is_space(b) {
            let after_space = if i == 0 {
                true
            } else {
                byte_is_space(data[i - 1])
            };
            if after_space {
                num_words = num_words + 1;
            }
        }
        if !(0x80 <= b && b <= 0xbf) {
            num_chars = num_chars + 1;
        }
        i = i + 1;
    }
    proof {
        assert(data@.take(n as int) =~= data@);
    }
    let num_lines = if n > 0 && data[n - 1] != 0x0a {
        proof {
            lemma_counts_bounded(data@.drop_last());
            assert(data@.drop_last() =~= data@.take(n - 1));
            assert(newline_count(data@) == newline_count(data@.drop_last()));
        }
        newlines + 1
    } else {
        newlines
    };
    FileInfo { num_lines, num_words, num_bytes: n, num_chars }
}

} // verus!
