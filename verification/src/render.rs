//! Rendering counts as report lines: each enabled field is the count's
//! decimal digits right-aligned in an eight-character column, and a line for
//! a real file ends with a space and the file's name.

use vstd::prelude::*;
use vstd::string::StrSliceExecFns;
use vstd::string::StringExecFns;
use crate::config::Config;
use crate::tally::FileInfo;
use crate::tally::Tally;
use crate::tally::tally_of;

verus! {

/// The decimal digit character for `d`.
pub open spec fn digit_char(d: nat) -> char
    recommends
        d < 10,
{
    if d == 0 {
        '0'
    } else if d == 1 {
        '1'
    } else if d == 2 {
        '2'
    } else if d == 3 {
        '3'
    } else if d == 4 {
        '4'
    } else if d == 5 {
        '5'
    } else if d == 6 {
        '6'
    } else if d == 7 {
        '7'
    } else if d == 8 {
        '8'
    } else {
        '9'
    }
}

/// The decimal digits of `n`, most significant first, with no padding and
/// no sign; `0` renders as the single digit `0`.
pub open spec fn spec_digits(n: nat) -> Seq<char>
    decreases n,
{
    if n < 10 {
        seq![digit_char(n)]
    } else {
        spec_digits(n / 10).push(digit_char(n % 10))
    }
}

/// A run of `k` space characters.
pub open spec fn spaces(k: nat) -> Seq<char> {
    Seq::new(k, |i: int| ' ')
}

/// `s` right-aligned in a column of width `w`: spaces in front when `s` is
/// short, `s` unchanged when it already fills the column.
pub open spec fn padded(s: Seq<char>, w: nat) -> Seq<char> {
    if s.len() >= w {
        s
    } else {
        spaces((w - s.len()) as nat) + s
    }
}

/// One display field: the value right-aligned in an eight-character column
/// when shown, and nothing at all when hidden.
pub open spec fn spec_field(value: nat, show: bool) -> Seq<char> {
    if show {
        padded(spec_digits(value), 8)
    } else {
        Seq::<char>::empty()
    }
}

/// The display fields of tally `t` in the fixed order lines, words, bytes,
/// characters, each present exactly when its flag in `c` is set.
pub open spec fn spec_fields(t: Tally, c: Config) -> Seq<char> {
    spec_field(t.0, c.lines) + spec_field(t.1, c.words) + spec_field(t.2, c.bytes) + spec_field(
        t.3,
        c.chars,
    )
}

/// The reserved input identifier that denotes standard input.
pub open spec fn stdin_name() -> Seq<char> {
    seq!['-']
}

/// One per-input report line: the enabled fields, then, for a real file, a
/// space and the file's name; the standard-input sentinel adds no name.
pub open spec fn spec_line(t: Tally, c: Config, name: Seq<char>) -> Seq<char> {
    spec_fields(t, c) + if name == stdin_name() {
        Seq::<char>::empty()
    } else {
        seq![' '] + name
    }
}

/// The totals line: the enabled fields followed by the suffix ` total`.
pub open spec fn spec_total_line(t: Tally, c: Config) -> Seq<char> {
    spec_fields(t, c) + seq![' ', 't', 'o', 't', 'a', 'l']
}

/// The one-character string holding decimal digit `d`.
fn digit_str(d: usize) -> (r: &'static str)
    requires
        d < 10,
    ensures
        r@ == seq![digit_char(d as nat)],
{
    if d == 0 {
        proof {
            reveal_strlit("0");
            assert("0"@ =~= seq![digit_char(0)]);
        }
        "0"
    } else if d == 1 {
        proof {
            reveal_strlit("1");
            assert("1"@ =~= seq![digit_char(1)]);
        }
        "1"
    } else if d == 2 {
        proof {
            reveal_strlit("2");
            assert("2"@ =~= seq![digit_char(2)]);
        }
        "2"
    } else if d == 3 {
        proof {
            reveal_strlit("3");
            assert("3"@ =~= seq![digit_char(3)]);
        }
        "3"
    } else if d == 4 {
        proof {
            reveal_strlit("4");
            assert("4"@ =~= seq![digit_char(4)]);
        }
        "4"
    } else if d == 5 {
        proof {
            reveal_strlit("5");
            assert("5"@ =~= seq![digit_char(5)]);
        }
        "5"
    } else if d == 6 {
        proof {
            reveal_strlit("6");
            assert("6"@ =~= seq![digit_char(6)]);
        }
        "6"
    } else if d == 7 {
        proof {
            reveal_strlit("7");
            assert("7"@ =~= seq![digit_char(7)]);
        }
        "7"
    } else if d == 8 {
        proof {
            reveal_strlit("8");
            assert("8"@ =~= seq![digit_char(8)]);
        }
        "8"
    } else {
        proof {
            reveal_strlit("9");
            assert("9"@ =~= seq![digit_char(9)]);
        }
        "9"
    }
}

/// Append the decimal digits of `n` to `out`.
fn push_digits(n: usize, out: &mut String)
    ensures
        final(out)@ == old(out)@ + spec_digits(n as nat),
    decreases n,
{
    if n >= 10 {
        proof {
            assert(n / 10 < n) by (nonlinear_arith)
                requires
                    n >= 10,
            ;
        }
        push_digits(n / 10, out);
        let d = digit_str(n % 10);
        out.append(d);
        proof {
            assert(final(out)@ =~= old(out)@ + spec_digits(n as nat));
        }
    } else {
        let d = digit_str(n);
        out.append(d);
        proof {
            assert(final(out)@ =~= old(out)@ + spec_digits(n as nat));
        }
    }
}

/// Render one display field: the value right-aligned in an eight-character
/// column when `show` is set, and the empty string otherwise.
pub fn format_field(value: usize, show: bool) -> (r: String)
    ensures
        r@ == spec_field(value as nat, show),
{
    if !show {
        let r = String::new();
        proof {
            assert(r@ =~= spec_field(value as nat, false));
        }
        return r;
    }
    let mut digits = String::new();
    push_digits(value, &mut digits);
    proof {
        assert(digits@ =~= spec_digits(value as nat));
    }
    let dlen = digits.as_str().unicode_len();
    let mut r = String::new();
    proof {
        assert(r@ =~= spaces(0));
    }
    let mut k: usize = dlen;
    while k < 8
        invariant
            dlen == spec_digits(value as nat).len(),
            dlen <= k,
            k <= 8 || k == dlen,
            r@ == spaces((k - dlen) as nat),
        decreases 8 - k,
    {
        proof {
            reveal_strlit(" ");
        }
        r.append(" ");
        proof {
            assert(r@ =~= spaces((k + 1 - dlen) as nat));
        }
        k = k + 1;
    }
    r.append(digits.as_str());
    proof {
        assert(r@ =~= spec_field(value as nat, true));
    }
    r
}

/// Decide whether `name` is the standard-input sentinel `-`.
fn is_stdin_name(name: &str) -> (r: bool)
    ensures
        r == (name@ == stdin_name()),
{
    let l = name.unicode_len();
    if l != 1 {
        false
    } else {
        let c = name.get_char(0);
        proof {
            if c == '-' {
                assert(name@ =~= stdin_name());
            }
        }
        c == '-'
    }
}

/// Render the report line for one input: the enabled fields of `info`, and
/// the input's name after a space unless the input is standard input.
pub fn format_line(info: &FileInfo, config: &Config, name: &str) -> (r: String)
    ensures
        r@ == spec_line(tally_of(*info), *config, name@),
{
    let mut r = format_field(info.num_lines, config.lines);
    let words = format_field(info.num_words, config.words);
    r.append(words.as_str());
    let bytes = format_field(info.num_bytes, config.bytes);
    r.append(bytes.as_str());
    let chars = format_field(info.num_chars, config.chars);
    r.append(chars.as_str());
    if !is_stdin_name(name) {
        proof {
            reveal_strlit(" ");
        }
        r.append(" ");
        r.append(name);
    }
    proof {
        assert(r@ =~= spec_line(tally_of(*info), *config, name@));
    }
    r
}

/// Render the totals line: the enabled fields of `totals` followed by the
/// suffix ` total`.
pub fn format_total_line(totals: &FileInfo, config: &Config) -> (r: String)
    ensures
        r@ == spec_total_line(tally_of(*totals), *config),
{
    let mut r = format_field(totals.num_lines, config.lines);
    let words = format_field(totals.num_words, config.words);
    r.append(words.as_str());
    let bytes = format_field(totals.num_bytes, config.bytes);
    r.append(bytes.as_str());
    let chars = format_field(totals.num_chars, config.chars);
    r.append(chars.as_str());
    proof {
        reveal_strlit(" total");
        assert(" total"@ =~= seq![' ', 't', 'o', 't', 'a', 'l']);
    }
    r.append(" total");
    proof {
        assert(r@ =~= spec_total_line(tally_of(*totals), *config));
    }
    r
}

} // verus!
