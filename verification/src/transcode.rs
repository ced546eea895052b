//! The earlier transcode-job argument shape.
//!
//! It serializes like [`crate::args::TaskArgs`] except that an absent
//! output path contributes nothing instead of a discard-sink triple.

use vstd::prelude::*;

use crate::args::ArgsView;
use crate::args::InputView;
use crate::args::OutputView;
use crate::args::inputs_tokens;
use crate::args::keep_nonempty;
use crate::args::preamble_tokens;
use crate::args::push_token;

verus! {

/// One transcode input: a source path and the parameters before it.
pub struct InputParams {
    pub path: String,
    pub params: Vec<String>,
}

/// One transcode output: an optional destination path and the parameters
/// before it.
pub struct OutputParams {
    pub path: Option<String>,
    pub params: Vec<String>,
}

/// A transcode job: ordered inputs then ordered outputs.
pub struct TranscodeItem {
    pub inputs: Vec<InputParams>,
    pub outputs: Vec<OutputParams>,
}

/// An identifier wrapper handed back to the UI command layer.
pub struct TranscodeId {
    pub id: String,
}

/// An identifier wrapper handed back to the UI command layer.
pub struct TaskId {
    pub id: String,
}

impl View for InputParams {
    type V = InputView;

    open spec fn view(&self) -> InputView {
        InputView { path: self.path@, args: self.params.deep_view() }
    }
}

impl View for OutputParams {
    type V = OutputView;

    open spec fn view(&self) -> OutputView {
        OutputView {
            path: match self.path {
                Some(p) => Some(p@),
                None => None,
            },
            args: self.params.deep_view(),
        }
    }
}

impl View for TranscodeItem {
    type V = ArgsView;

    open spec fn view(&self) -> ArgsView {
        ArgsView {
            inputs: Seq::new(self.inputs@.len(), |i: int| self.inputs@[i]@),
            outputs: Seq::new(self.outputs@.len(), |i: int| self.outputs@[i]@),
        }
    }
}

/// Tokens of one output group: parameters, then the path when present.
pub open spec fn item_output_tokens(o: OutputView) -> Seq<Seq<char>> {
    o.args + match o.path {
        Some(p) => seq![p],
        None => Seq::empty(),
    }
}

/// Tokens of all output groups, in order.
pub open spec fn item_outputs_tokens(os: Seq<OutputView>) -> Seq<Seq<char>>
    decreases os.len(),
{
    if os.len() == 0 {
        Seq::empty()
    } else {
        item_outputs_tokens(os.drop_last()) + item_output_tokens(os.last())
    }
}

/// The serialized command line of a transcode job.
pub open spec fn spec_item_tokens(a: ArgsView) -> Seq<Seq<char>> {
    keep_nonempty(
        preamble_tokens() + inputs_tokens(a.inputs) + item_outputs_tokens(a.outputs) + seq![
            "-y"@,
        ],
    )
}

impl TranscodeItem {
    /// Serializes to the ffmpeg command line, eliding empty tokens.
    pub fn to_args(&self) -> (r: Vec<String>)
        ensures
            r.deep_view() == spec_item_tokens(self@),
    {
        let mut r: Vec<String> = Vec::new();
        proof {
            assert(r.deep_view() =~= keep_nonempty(Seq::<Seq<char>>::empty()));
        }
        let ghost mut pre: Seq<Seq<char>> = Seq::empty();
        push_token(&mut r, String::from_str("-hide_banner"), Ghost(pre));
        proof {
            pre = pre + seq!["-hide_banner"@];
        }
        push_token(&mut r, String::from_str("-progress"), Ghost(pre));
        proof {
            pre = pre + seq!["-progress"@];
        }
        push_token(&mut r, String::from_str("-"), Ghost(pre));
        proof {
            pre = pre + seq!["-"@];
        }
        push_token(&mut r, String::from_str("-nostats"), Ghost(pre));
        proof {
            pre = pre + seq!["-nostats"@];
            assert(pre =~= preamble_tokens());
        }
        let mut i: usize = 0;
        while i < self.inputs.len()
            invariant
                i <= self.inputs.len(),
                pre == preamble_tokens(),
                r.deep_view() == keep_nonempty(pre + inputs_tokens(self@.inputs.take(i as int))),
            decreases self.inputs.len() - i,
        {
            let ghost mut cur: Seq<Seq<char>> = pre + inputs_tokens(self@.inputs.take(i as int));
            let input = &self.inputs[i];
            let mut j: usize = 0;
            while j < input.params.len()
                invariant
                    j <= input.params.len(),
                    i < self.inputs.len(),
                    input == &self.inputs[i as int],
                    cur == pre + inputs_tokens(self@.inputs.take(i as int)) + input@.args.take(
                        j as int,
                    ),
                    r.deep_view() == keep_nonempty(cur),
                decreases input.params.len() - j,
            {
                push_token(&mut r, input.params[j].clone(), Ghost(cur));
                proof {
                    cur = cur + seq![input@.args[j as int]];
                    assert(cur =~= pre + inputs_tokens(self@.inputs.take(i as int))
                        + input@.args.take(j as int + 1));
                }
                j = j + 1;
            }
            proof {
                assert(input@.args.take(input.params.len() as int) =~= input@.args);
            }
            push_token(&mut r, String::from_str("-i"), Ghost(cur));
            proof {
                cur = cur + seq!["-i"@];
            }
            push_token(&mut r, input.path.clone(), Ghost(cur));
            proof {
                cur = cur + seq![input@.path];
                assert(self@.inputs.take(i as int + 1).drop_last() =~= self@.inputs.take(i as int));
                assert(self@.inputs.take(i as int + 1).last() == self@.inputs[i as int]);
                assert(cur =~= pre + inputs_tokens(self@.inputs.take(i as int + 1)));
            }
            i = i + 1;
        }
        proof {
            assert(self@.inputs.take(self.inputs.len() as int) =~= self@.inputs);
        }
        let ghost mid: Seq<Seq<char>> = pre + inputs_tokens(self@.inputs);
        let mut k: usize = 0;
        while k < self.outputs.len()
            invariant
                k <= self.outputs.len(),
                mid == preamble_tokens() + inputs_tokens(self@.inputs),
                r.deep_view() == keep_nonempty(
                    mid + item_outputs_tokens(self@.outputs.take(k as int)),
                ),
            decreases self.outputs.len() - k,
        {
            let ghost mut cur: Seq<Seq<char>> = mid + item_outputs_tokens(
                self@.outputs.take(k as int),
            );
            let output = &self.outputs[k];
            let mut j: usize = 0;
            while j < output.params.len()
                invariant
                    j <= output.params.len(),
                    k < self.outputs.len(),
                    output == &self.outputs[k as int],
                    cur == mid + item_outputs_tokens(self@.outputs.take(k as int))
                        + output@.args.take(j as int),
                    r.deep_view() == keep_nonempty(cur),
                decreases output.params.len() - j,
            {
                push_token(&mut r, output.params[j].clone(), Ghost(cur));
                proof {
                    cur = cur + seq![output@.args[j as int]];
                    assert(cur =~= mid + item_outputs_tokens(self@.outputs.take(k as int))
                        + output@.args.take(j as int + 1));
                }
                j = j + 1;
            }
            proof {
                assert(output@.args.take(output.params.len() as int) =~= output@.args);
            }
            match &output.path {
                Some(p) => {
                    push_token(&mut r, p.clone(), Ghost(cur));
                    proof {
                        cur = cur + seq![p@];
                    }
                },
                None => {
                },
            }
            proof {
                assert(self@.outputs.take(k as int + 1).drop_last() =~= self@.outputs.take(
                    k as int,
                ));
                assert(self@.outputs.take(k as int + 1).last() == self@.outputs[k as int]);
                assert(cur =~= mid + item_outputs_tokens(self@.outputs.take(k as int + 1)));
            }
            k = k + 1;
        }
        proof {
            assert(self@.outputs.take(self.outputs.len() as int) =~= self@.outputs);
        }
        let ghost fin: Seq<Seq<char>> = mid + item_outputs_tokens(self@.outputs);
        push_token(&mut r, String::from_str("-y"), Ghost(fin));
        proof {
            assert(fin + seq!["-y"@] =~= preamble_tokens() + inputs_tokens(self@.inputs)
                + item_outputs_tokens(self@.outputs) + seq!["-y"@]);
        }
        r
    }
}

} // verus!
