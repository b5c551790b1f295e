//! The report over a whole run: one line per input whose contents were
//! read, nothing for an input that failed, and a totals line exactly when
//! more than one input was configured.

use vstd::prelude::*;
use vstd::seq_lib::commutative_foldl;
use vstd::seq_lib::lemma_fold_left_permutation;
use crate::config::Config;
use crate::counting::char_count;
use crate::counting::count;
use crate::counting::lemma_counts_bounded;
use crate::counting::line_count;
use crate::counting::word_count;
use crate::render::format_line;
use crate::render::format_total_line;
use crate::render::spec_line;
use crate::render::spec_total_line;
use crate::tally::FileInfo;
use crate::tally::Tally;
use crate::tally::tally_add;
use crate::tally::tally_of;
use crate::tally::tally_zero;

verus! {

/// The tally one input contributes to the totals: its four counts when its
/// contents were read, and nothing when it could not be read.
pub open spec fn input_tally(input: Option<Vec<u8>>) -> Tally {
    match input {
        Some(data) => (line_count(data@), word_count(data@), data@.len(), char_count(data@)),
        None => tally_zero(),
    }
}

/// The running totals after folding every input's tally, in order.
pub open spec fn spec_totals(inputs: Seq<Option<Vec<u8>>>) -> Tally
    decreases inputs.len(),
{
    if inputs.len() == 0 {
        tally_zero()
    } else {
        tally_add(spec_totals(inputs.drop_last()), input_tally(inputs.last()))
    }
}

/// Totals over two input lists processed one after the other are the sums
/// of each list's own totals.
pub proof fn lemma_spec_totals_concat(x: Seq<Option<Vec<u8>>>, y: Seq<Option<Vec<u8>>>)
    ensures
        spec_totals(x + y) == tally_add(spec_totals(x), spec_totals(y)),
    decreases y.len(),
{
    if y.len() == 0 {
        assert(x + y =~= x);
    } else {
        assert((x + y).drop_last() =~= x + y.drop_last());
        assert((x + y).last() == y.last());
        lemma_spec_totals_concat(x, y.drop_last());
    }
}

/// Processing the inputs in either order yields the same totals; order
/// affects only where the report lines stand, never the totals.
pub proof fn lemma_spec_totals_order_independent(x: Seq<Option<Vec<u8>>>, y: Seq<Option<Vec<u8>>>)
    ensures
        spec_totals(x + y) == spec_totals(y + x),
{
    lemma_spec_totals_concat(x, y);
    lemma_spec_totals_concat(y, x);
}

/// The step that folds one more input's tally into the running totals.
pub open spec fn totals_step() -> spec_fn(Tally, Option<Vec<u8>>) -> Tally {
    |t: Tally, input: Option<Vec<u8>>| tally_add(t, input_tally(input))
}

/// The totals are a left fold of the inputs under `totals_step`.
pub proof fn lemma_spec_totals_is_fold(inputs: Seq<Option<Vec<u8>>>)
    ensures
        spec_totals(inputs) == inputs.fold_left(tally_zero(), totals_step()),
    decreases inputs.len(),
{
    if inputs.len() > 0 {
        lemma_spec_totals_is_fold(inputs.drop_last());
    }
}

/// Processing the inputs in any order yields the same totals: every
/// rearrangement of the input list folds to the same four sums.
pub proof fn lemma_spec_totals_permutation(x: Seq<Option<Vec<u8>>>, y: Seq<Option<Vec<u8>>>)
    requires
        x.to_multiset() == y.to_multiset(),
    ensures
        spec_totals(x) == spec_totals(y),
{
    lemma_spec_totals_is_fold(x);
    lemma_spec_totals_is_fold(y);
    assert(commutative_foldl(totals_step()));
    lemma_fold_left_permutation(x, y, totals_step(), tally_zero());
}

/// The combined byte length of the inputs that were read.
pub open spec fn total_input_len(inputs: Seq<Option<Vec<u8>>>) -> nat
    decreases inputs.len(),
{
    if inputs.len() == 0 {
        0
    } else {
        total_input_len(inputs.drop_last()) + match inputs.last() {
            Some(data) => data@.len(),
            None => 0nat,
        }
    }
}

/// No component of the totals can exceed the combined byte length of the
/// inputs.
pub proof fn lemma_totals_bounded(inputs: Seq<Option<Vec<u8>>>)
    ensures
        spec_totals(inputs).0 <= total_input_len(inputs),
        spec_totals(inputs).1 <= total_input_len(inputs),
        spec_totals(inputs).2 <= total_input_len(inputs),
        spec_totals(inputs).3 <= total_input_len(inputs),
    decreases inputs.len(),
{
    if inputs.len() > 0 {
        lemma_totals_bounded(inputs.drop_last());
        match inputs.last() {
            Some(data) => lemma_counts_bounded(data@),
            None => (),
        }
    }
}

/// A prefix of the inputs never has more bytes than the whole list.
pub proof fn lemma_total_input_len_take(inputs: Seq<Option<Vec<u8>>>, i: int)
    requires
        0 <= i <= inputs.len(),
    ensures
        total_input_len(inputs.take(i)) <= total_input_len(inputs),
    decreases inputs.len(),
{
    if i == inputs.len() {
        assert(inputs.take(i) =~= inputs);
    } else {
        assert(inputs.drop_last().take(i) =~= inputs.take(i));
        lemma_total_input_len_take(inputs.drop_last(), i);
    }
}

/// The per-input report lines, in input order: one line for each input
/// whose contents were read, none for one that failed.
pub open spec fn spec_data_lines(
    c: Config,
    names: Seq<String>,
    inputs: Seq<Option<Vec<u8>>>,
) -> Seq<Seq<char>>
    recommends
        names.len() == inputs.len(),
    decreases inputs.len(),
{
    if inputs.len() == 0 {
        Seq::<Seq<char>>::empty()
    } else {
        spec_data_lines(c, names.drop_last(), inputs.drop_last()) + match inputs.last() {
            Some(_) => seq![spec_line(input_tally(inputs.last()), c, names.last()@)],
            None => Seq::<Seq<char>>::empty(),
        }
    }
}

/// The whole report: the per-input lines, then a totals line exactly when
/// more than one input was configured, however many of them succeeded.
pub open spec fn spec_report(c: Config, inputs: Seq<Option<Vec<u8>>>) -> Seq<Seq<char>> {
    spec_data_lines(c, c.files@, inputs) + if c.files@.len() > 1 {
        seq![spec_total_line(spec_totals(inputs), c)]
    } else {
        Seq::<Seq<char>>::empty()
    }
}

/// Produce the report for one run.
///
/// `inputs` holds, for each configured input in order, the bytes that were
/// read from it, or nothing when resolving or reading it failed. The result
/// is the full sequence of standard-output lines: one rendered line per
/// readable input, and, exactly when more than one input was configured, a
/// final totals line folding the readable inputs' counts.
pub fn run_report(config: &Config, inputs: &Vec<Option<Vec<u8>>>) -> (out: Vec<String>)
    requires
        inputs@.len() == config.files@.len(),
        total_input_len(inputs@) <= usize::MAX,
    ensures
        out@.map_values(|s: String| s@) == spec_report(*config, inputs@),
        config.files@.len() > 1 ==> out@.len() > 0 && out@.last()@ == spec_total_line(
            spec_totals(inputs@),
            *config,
        ),
        config.files@.len() <= 1 ==> out@.map_values(|s: String| s@) == spec_data_lines(
            *config,
            config.files@,
            inputs@,
        ),
{
    let n = inputs.len();
    let mut out: Vec<String> = Vec::new();
    let mut totals = FileInfo { num_lines: 0, num_words: 0, num_bytes: 0, num_chars: 0 };
    let mut i: usize = 0;
    proof {
        assert(out@.map_values(|s: String| s@) =~= spec_data_lines(
            *config,
            config.files@.take(0),
            inputs@.take(0),
        ));
    }
    while i < n
        invariant
            n == inputs@.len(),
            inputs@.len() == config.files@.len(),
            total_input_len(inputs@) <= usize::MAX,
            i <= n,
            out@.map_values(|s: String| s@) == spec_data_lines(
                *config,
                config.files@.take(i as int),
                inputs@.take(i as int),
            ),
            tally_of(totals) == spec_totals(inputs@.take(i as int)),
        decreases n - i,
    {
        proof {
            assert(inputs@.take(i + 1).drop_last() =~= inputs@.take(i as int));
            assert(config.files@.take(i + 1).drop_last() =~= config.files@.take(i as int));
            assert(inputs@.take(i + 1).last() == inputs@[i as int]);
            assert(config.files@.take(i + 1).last() == config.files@[i as int]);
        }
        match &inputs[i] {
            Some(data) => {
                let info = count(data.as_slice());
                let line = format_line(&info, config, config.files[i].as_str());
                out.push(line);
                proof {
                    assert(out@.map_values(|s: String| s@) =~= spec_data_lines(
                        *config,
                        config.files@.take(i + 1),
                        inputs@.take(i + 1),
                    ));
                    lemma_totals_bounded(inputs@.take(i + 1));
                    lemma_total_input_len_take(inputs@, i + 1);
                }
                totals =
                FileInfo {
                    num_lines: totals.num_lines + info.num_lines,
                    num_words: totals.num_words + info.num_words,
                    num_bytes: totals.num_bytes + info.num_bytes,
                    num_chars: totals.num_chars + info.num_chars,
                };
            },
            None => {
                proof {
                    assert(out@.map_values(|s: String| s@) =~= spec_data_lines(
                        *config,
                        config.files@.take(i + 1),
                        inputs@.take(i + 1),
                    ));
                }
            },
        }
        i = i + 1;
    }
    proof {
        assert(inputs@.take(n as int) =~= inputs@);
        assert(config.files@.take(n as int) =~= config.files@);
    }
    if config.files.len() > 1 {
        let total_line = format_total_line(&totals, config);
        out.push(total_line);
        proof {
            assert(out@.map_values(|s: String| s@) =~= spec_report(*config, inputs@));
        }
    } else {
        proof {
            assert(out@.map_values(|s: String| s@) =~= spec_report(*config, inputs@));
        }
    }
    out
}

} // verus!
