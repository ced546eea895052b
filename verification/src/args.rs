//! Typed representation of ffmpeg invocation arguments and their
//! serialization to an ordered token list.
//!
//! The token order is contractual: a fixed preamble that requests
//! machine-readable progress lines, then each input's flags followed by
//! `-i` and its path, then each output's flags followed by its path (or a
//! discard-sink triple when it has none), then the overwrite suffix.
//! Empty tokens are elided.

use vstd::prelude::*;

use crate::strutil::str_eq;

verus! {

/// One input: a source path and the flags that precede it.
pub struct TaskInputArgs {
    pub path: String,
    pub args: Vec<String>,
}

/// One output: a destination path (absent for a discard sink) and the
/// flags that precede it.
pub struct TaskOutputArgs {
    pub path: Option<String>,
    pub args: Vec<String>,
}

/// A full argument set: ordered inputs then ordered outputs.
pub struct TaskArgs {
    pub inputs: Vec<TaskInputArgs>,
    pub outputs: Vec<TaskOutputArgs>,
}

/// Mathematical image of one input group.
pub ghost struct InputView {
    pub path: Seq<char>,
    pub args: Seq<Seq<char>>,
}

/// Mathematical image of one output group.
pub ghost struct OutputView {
    pub path: Option<Seq<char>>,
    pub args: Seq<Seq<char>>,
}

/// Mathematical image of a full argument set.
pub ghost struct ArgsView {
    pub inputs: Seq<InputView>,
    pub outputs: Seq<OutputView>,
}

impl View for TaskInputArgs {
    type V = InputView;

    open spec fn view(&self) -> InputView {
        InputView { path: self.path@, args: self.args.deep_view() }
    }
}

impl View for TaskOutputArgs {
    type V = OutputView;

    open spec fn view(&self) -> OutputView {
        OutputView {
            path: match self.path {
                Some(p) => Some(p@),
                None => None,
            },
            args: self.args.deep_view(),
        }
    }
}

impl View for TaskArgs {
    type V = ArgsView;

    open spec fn view(&self) -> ArgsView {
        ArgsView {
            inputs: Seq::new(self.inputs@.len(), |i: int| self.inputs@[i]@),
            outputs: Seq::new(self.outputs@.len(), |i: int| self.outputs@[i]@),
        }
    }
}

/// The fixed token prefix: request progress lines on standard output and
/// suppress the interactive statistics display.
pub open spec fn preamble_tokens() -> Seq<Seq<char>> {
    seq!["-hide_banner"@, "-progress"@, "-"@, "-nostats"@]
}

/// Tokens of one input group: flags, then `-i`, then the path.
pub open spec fn input_tokens(i: InputView) -> Seq<Seq<char>> {
    i.args + seq!["-i"@, i.path]
}

/// Tokens of all input groups, in order.
pub open spec fn inputs_tokens(is: Seq<InputView>) -> Seq<Seq<char>>
    decreases is.len(),
{
    if is.len() == 0 {
        Seq::empty()
    } else {
        inputs_tokens(is.drop_last()) + input_tokens(is.last())
    }
}

/// Tokens of one output group: flags, then the path or the discard-sink
/// triple.
pub open spec fn output_tokens(o: OutputView) -> Seq<Seq<char>> {
    o.args + match o.path {
        Some(p) => seq![p],
        None => seq!["-f"@, "null"@, "-"@],
    }
}

/// Tokens of all output groups, in order.
pub open spec fn outputs_tokens(os: Seq<OutputView>) -> Seq<Seq<char>>
    decreases os.len(),
{
    if os.len() == 0 {
        Seq::empty()
    } else {
        outputs_tokens(os.drop_last()) + output_tokens(os.last())
    }
}

/// Drops the empty tokens, keeping order.
pub open spec fn keep_nonempty(ts: Seq<Seq<char>>) -> Seq<Seq<char>>
    decreases ts.len(),
{
    if ts.len() == 0 {
        Seq::empty()
    } else {
        keep_nonempty(ts.drop_last()) + if ts.last().len() > 0 {
            seq![ts.last()]
        } else {
            Seq::empty()
        }
    }
}

/// The serialized command line of an argument set.
pub open spec fn spec_cli_tokens(a: ArgsView) -> Seq<Seq<char>> {
    keep_nonempty(
        preamble_tokens() + inputs_tokens(a.inputs) + outputs_tokens(a.outputs) + seq!["-y"@],
    )
}

pub proof fn lemma_keep_nonempty_add(a: Seq<Seq<char>>, b: Seq<Seq<char>>)
    ensures
        keep_nonempty(a + b) == keep_nonempty(a) + keep_nonempty(b),
    decreases b.len(),
{
    if b.len() == 0 {
        assert(a + b =~= a);
        assert(keep_nonempty(a) + keep_nonempty(b) =~= keep_nonempty(a));
    } else {
        lemma_keep_nonempty_add(a, b.drop_last());
        assert((a + b).drop_last() =~= a + b.drop_last());
        assert((a + b).last() == b.last());
        assert(keep_nonempty(a) + keep_nonempty(b.drop_last()) + (if b.last().len() > 0 {
            seq![b.last()]
        } else {
            Seq::<Seq<char>>::empty()
        }) =~= keep_nonempty(a) + keep_nonempty(b));
    }
}

/// On a sequence without empty tokens, the elision is the identity.
pub proof fn lemma_keep_nonempty_id(ts: Seq<Seq<char>>)
    requires
        forall|i: int| 0 <= i < ts.len() ==> #[trigger] ts[i].len() > 0,
    ensures
        keep_nonempty(ts) == ts,
    decreases ts.len(),
{
    if ts.len() > 0 {
        lemma_keep_nonempty_id(ts.drop_last());
        assert(keep_nonempty(ts.drop_last()) + seq![ts.last()] =~= ts);
    }
}

impl TaskArgs {
    /// Serializes to the ffmpeg command line, eliding empty tokens.
    pub fn to_cli_args(&self) -> (r: Vec<String>)
        ensures
            r.deep_view() == spec_cli_tokens(self@),
    {
        let mut r: Vec<String> = Vec::new();
        proof {
            assert(r.deep_view() =~= keep_nonempty(Seq::<Seq<char>>::empty()));
        }
        let ghost mut pre: Seq<Seq<char>> = Seq::empty();
        push_token(&mut r, String::from_str("-hide_banner"), Ghost(pre));
        proof {
            pre = pre + seq!["-hide_banner"@];
        }
        push_token(&mut r, String::from_str("-progress"), Ghost(pre));
        proof {
            pre = pre + seq!["-progress"@];
        }
        push_token(&mut r, String::from_str("-"), Ghost(pre));
        proof {
            pre = pre + seq!["-"@];
        }
        push_token(&mut r, String::from_str("-nostats"), Ghost(pre));
        proof {
            pre = pre + seq!["-nostats"@];
            assert(pre =~= preamble_tokens());
        }
        let mut i: usize = 0;
        while i < self.inputs.len()
            invariant
                i <= self.inputs.len(),
                pre == preamble_tokens(),
                r.deep_view() == keep_nonempty(pre + inputs_tokens(self@.inputs.take(i as int))),
            decreases self.inputs.len() - i,
        {
            let ghost mut cur: Seq<Seq<char>> = pre + inputs_tokens(self@.inputs.take(i as int));
            let input = &self.inputs[i];
            let mut j: usize = 0;
            while j < input.args.len()
                invariant
                    j <= input.args.len(),
                    i < self.inputs.len(),
                    input == &self.inputs[i as int],
                    cur == pre + inputs_tokens(self@.inputs.take(i as int)) + input@.args.take(
                        j as int,
                    ),
                    r.deep_view() == keep_nonempty(cur),
                decreases input.args.len() - j,
            {
                push_token(&mut r, input.args[j].clone(), Ghost(cur));
                proof {
                    cur = cur + seq![input@.args[j as int]];
                    assert(cur =~= pre + inputs_tokens(self@.inputs.take(i as int))
                        + input@.args.take(j as int + 1));
                }
                j = j + 1;
            }
            proof {
                assert(input@.args.take(input.args.len() as int) =~= input@.args);
            }
            push_token(&mut r, String::from_str("-i"), Ghost(cur));
            proof {
                cur = cur + seq!["-i"@];
            }
            push_token(&mut r, input.path.clone(), Ghost(cur));
            proof {
                cur = cur + seq![input@.path];
                assert(self@.inputs.take(i as int + 1).drop_last() =~= self@.inputs.take(i as int));
                assert(self@.inputs.take(i as int + 1).last() == self@.inputs[i as int]);
                assert(cur =~= pre + inputs_tokens(self@.inputs.take(i as int + 1)));
            }
            i = i + 1;
        }
        proof {
            assert(self@.inputs.take(self.inputs.len() as int) =~= self@.inputs);
        }
        let ghost mid: Seq<Seq<char>> = pre + inputs_tokens(self@.inputs);
        let mut k: usize = 0;
        while k < self.outputs.len()
            invariant
                k <= self.outputs.len(),
                mid == preamble_tokens() + inputs_tokens(self@.inputs),
                r.deep_view() == keep_nonempty(mid + outputs_tokens(self@.outputs.take(k as int))),
            decreases self.outputs.len() - k,
        {
            let ghost mut cur: Seq<Seq<char>> = mid + outputs_tokens(self@.outputs.take(k as int));
            let output = &self.outputs[k];
            let mut j: usize = 0;
            while j < output.args.len()
                invariant
                    j <= output.args.len(),
                    k < self.outputs.len(),
                    output == &self.outputs[k as int],
                    cur == mid + outputs_tokens(self@.outputs.take(k as int)) + output@.args.take(
                        j as int,
                    ),
                    r.deep_view() == keep_nonempty(cur),
                decreases output.args.len() - j,
            {
                push_token(&mut r, output.args[j].clone(), Ghost(cur));
                proof {
                    cur = cur + seq![output@.args[j as int]];
                    assert(cur =~= mid + outputs_tokens(self@.outputs.take(k as int))
                        + output@.args.take(j as int + 1));
                }
                j = j + 1;
            }
            proof {
                assert(output@.args.take(output.args.len() as int) =~= output@.args);
            }
            match &output.path {
                Some(p) => {
                    push_token(&mut r, p.clone(), Ghost(cur));
                    proof {
                        cur = cur + seq![p@];
                    }
                },
                None => {
                    push_token(&mut r, String::from_str("-f"), Ghost(cur));
                    proof {
                        cur = cur + seq!["-f"@];
                    }
                    push_token(&mut r, String::from_str("null"), Ghost(cur));
                    proof {
                        cur = cur + seq!["null"@];
                    }
                    push_token(&mut r, String::from_str("-"), Ghost(cur));
                    proof {
                        cur = cur + seq!["-"@];
                    }
                },
            }
            proof {
                assert(self@.outputs.take(k as int + 1).drop_last() =~= self@.outputs.take(
                    k as int,
                ));
                assert(self@.outputs.take(k as int + 1).last() == self@.outputs[k as int]);
                assert(cur =~= mid + outputs_tokens(self@.outputs.take(k as int + 1)));
            }
            k = k + 1;
        }
        proof {
            assert(self@.outputs.take(self.outputs.len() as int) =~= self@.outputs);
        }
        let ghost fin: Seq<Seq<char>> = mid + outputs_tokens(self@.outputs);
        push_token(&mut r, String::from_str("-y"), Ghost(fin));
        proof {
            assert(fin + seq!["-y"@] =~= preamble_tokens() + inputs_tokens(self@.inputs)
                + outputs_tokens(self@.outputs) + seq!["-y"@]);
        }
        r
    }
}

/// Appends `t` to `r` unless `t` is empty, maintaining the elided image of
/// the ghost token prefix.
pub(crate) fn push_token(r: &mut Vec<String>, t: String, Ghost(prefix): Ghost<Seq<Seq<char>>>)
    requires
        old(r).deep_view() == keep_nonempty(prefix),
    ensures
        final(r).deep_view() == keep_nonempty(prefix + seq![t@]),
{
    proof {
        lemma_keep_nonempty_add(prefix, seq![t@]);
        assert(seq![t@].drop_last() =~= Seq::<Seq<char>>::empty());
        assert(keep_nonempty(seq![t@]) == keep_nonempty(Seq::<Seq<char>>::empty()) + if t@.len()
            > 0 {
            seq![t@]
        } else {
            Seq::<Seq<char>>::empty()
        });
    }
    if !t.as_str().is_empty() {
        r.push(t);
        proof {
            assert(final(r).deep_view() =~= old(r).deep_view() + seq![t@]);
            assert(keep_nonempty(prefix) + seq![t@] =~= keep_nonempty(prefix + seq![t@]));
        }
    } else {
        proof {
            assert(keep_nonempty(prefix) =~= keep_nonempty(prefix + seq![t@]));
        }
    }
}

} // verus!

verus! {

/// Intermediate parsing state: the input groups recognized so far and the
/// tokens accumulated since the last complete group.
pub ghost struct ParseMid {
    pub inputs: Seq<InputView>,
    pub buf: Seq<Seq<char>>,
}

/// Scans tokens, closing an input group at each `-i` and accumulating
/// every other token; fails when `-i` is the final token.
pub open spec fn parse_groups(
    ts: Seq<Seq<char>>,
    buf: Seq<Seq<char>>,
    acc: Seq<InputView>,
) -> Option<ParseMid>
    decreases ts.len(),
{
    if ts.len() == 0 {
        Some(ParseMid { inputs: acc, buf })
    } else if ts[0] == "-i"@ {
        if ts.len() >= 2 {
            parse_groups(
                ts.skip(2),
                Seq::empty(),
                acc.push(InputView { path: ts[1], args: buf }),
            )
        } else {
            None
        }
    } else {
        parse_groups(ts.skip(1), buf.push(ts[0]), acc)
    }
}

/// Reads an argument set back from a serialized command line.
///
/// Input groups are recovered exactly.  The output region cannot be split
/// unambiguously (a path is indistinguishable from a flag value), so it is
/// recovered as one output group whose serialization is token-identical.
pub open spec fn spec_parse_cli(ts: Seq<Seq<char>>) -> Option<ArgsView> {
    if ts.len() >= 5 && ts.subrange(0, 4) == preamble_tokens() && ts.last() == "-y"@ {
        match parse_groups(ts.subrange(4, ts.len() - 1), Seq::empty(), Seq::empty()) {
            Some(m) => Some(
                ArgsView {
                    inputs: m.inputs,
                    outputs: if m.buf.len() == 0 {
                        Seq::empty()
                    } else {
                        seq![OutputView { path: Some(m.buf.last()), args: m.buf.drop_last() }]
                    },
                },
            ),
            None => None,
        }
    } else {
        None
    }
}

/// A token that may stand among flags: nonempty (it survives elision) and
/// not the input marker.
pub open spec fn flag_token_ok(t: Seq<char>) -> bool {
    t.len() > 0 && t != "-i"@
}

/// Argument sets whose serialization is unambiguous: paths are nonempty
/// and no flag collides with the input marker.
pub open spec fn wf_args(a: ArgsView) -> bool {
    &&& forall|i: int| 0 <= i < a.inputs.len() ==> (#[trigger] a.inputs[i]).path.len() > 0
    &&& forall|i: int, j: int|
        0 <= i < a.inputs.len() && 0 <= j < a.inputs[i].args.len() ==> flag_token_ok(
            #[trigger] a.inputs[i].args[j],
        )
    &&& forall|i: int, j: int|
        0 <= i < a.outputs.len() && 0 <= j < a.outputs[i].args.len() ==> flag_token_ok(
            #[trigger] a.outputs[i].args[j],
        )
    &&& forall|i: int|
        0 <= i < a.outputs.len() ==> match (#[trigger] a.outputs[i]).path {
            Some(p) => p.len() > 0 && p != "-i"@,
            None => true,
        }
}

} // verus!

verus! {

/// Unfolds the token list of the input groups at the front.
proof fn lemma_inputs_tokens_first(is: Seq<InputView>)
    requires
        is.len() > 0,
    ensures
        inputs_tokens(is) == input_tokens(is[0]) + inputs_tokens(is.drop_first()),
    decreases is.len(),
{
    if is.len() == 1 {
        assert(is.drop_last() =~= Seq::<InputView>::empty());
        assert(is.drop_first() =~= Seq::<InputView>::empty());
        assert(inputs_tokens(is) =~= input_tokens(is[0]) + inputs_tokens(is.drop_first()));
    } else {
        lemma_inputs_tokens_first(is.drop_last());
        assert(is.drop_last()[0] == is[0]);
        assert(is.drop_last().drop_first() =~= is.drop_first().drop_last());
        assert(is.drop_first().last() == is.last());
        assert(input_tokens(is[0]) + inputs_tokens(is.drop_first().drop_last()) + input_tokens(
            is.last(),
        ) =~= input_tokens(is[0]) + inputs_tokens(is.drop_first()));
        assert(inputs_tokens(is) =~= input_tokens(is[0]) + inputs_tokens(is.drop_first()));
    }
}

/// Every token an input group series emits is nonempty, given nonempty
/// paths and well-formed flags.
proof fn lemma_inputs_tokens_nonempty(is: Seq<InputView>)
    requires
        forall|i: int| 0 <= i < is.len() ==> (#[trigger] is[i]).path.len() > 0,
        forall|i: int, j: int|
            0 <= i < is.len() && 0 <= j < is[i].args.len() ==> flag_token_ok(
                #[trigger] is[i].args[j],
            ),
    ensures
        forall|k: int|
            0 <= k < inputs_tokens(is).len() ==> (#[trigger] inputs_tokens(is)[k]).len() > 0,
    decreases is.len(),
{
    reveal_strlit("-i");
    if is.len() > 0 {
        assert(forall|i: int|
            0 <= i < is.drop_last().len() ==> (#[trigger] is.drop_last()[i]).path.len() > 0);
        assert(forall|i: int, j: int|
            0 <= i < is.drop_last().len() && 0 <= j < is.drop_last()[i].args.len()
                ==> flag_token_ok(#[trigger] is.drop_last()[i].args[j]));
        lemma_inputs_tokens_nonempty(is.drop_last());
        let last = is.last();
        assert(forall|j: int| 0 <= j < last.args.len() ==> flag_token_ok(#[trigger] last.args[j]));
        let left = inputs_tokens(is.drop_last());
        let right = input_tokens(last);
        assert forall|k: int| 0 <= k < right.len() implies (#[trigger] right[k]).len() > 0 by {
            if k < last.args.len() {
                assert(right[k] == last.args[k]);
            } else if k == last.args.len() {
                assert(right[k] == "-i"@);
            } else {
                assert(right[k] == last.path);
            }
        }
        assert(inputs_tokens(is) == left + right);
        assert forall|k: int|
            0 <= k < inputs_tokens(is).len() implies (#[trigger] inputs_tokens(is)[k]).len()
            > 0 by {
            if k < left.len() {
                assert(inputs_tokens(is)[k] == left[k]);
            } else {
                assert(inputs_tokens(is)[k] == right[k - left.len()]);
            }
        }
    }
}

/// Every token an output group series emits is nonempty and distinct from
/// the input marker, given a well-formed argument set.
proof fn lemma_outputs_tokens_ok(os: Seq<OutputView>)
    requires
        forall|i: int, j: int|
            0 <= i < os.len() && 0 <= j < os[i].args.len() ==> flag_token_ok(
                #[trigger] os[i].args[j],
            ),
        forall|i: int|
            0 <= i < os.len() ==> match (#[trigger] os[i]).path {
                Some(p) => p.len() > 0 && p != "-i"@,
                None => true,
            },
    ensures
        forall|k: int|
            0 <= k < outputs_tokens(os).len() ==> (#[trigger] outputs_tokens(os)[k]).len() > 0
                && outputs_tokens(os)[k] != "-i"@,
    decreases os.len(),
{
    reveal_strlit("-i");
    reveal_strlit("-f");
    reveal_strlit("null");
    reveal_strlit("-");
    assert("-f"@ != "-i"@) by {
        assert("-f"@[1] != "-i"@[1]);
    }
    assert("null"@ != "-i"@) by {
        assert("null"@.len() != "-i"@.len());
    }
    assert("-"@ != "-i"@) by {
        assert("-"@.len() != "-i"@.len());
    }
    if os.len() > 0 {
        assert(forall|i: int, j: int|
            0 <= i < os.drop_last().len() && 0 <= j < os.drop_last()[i].args.len()
                ==> flag_token_ok(#[trigger] os.drop_last()[i].args[j]));
        assert(forall|i: int|
            0 <= i < os.drop_last().len() ==> match (#[trigger] os.drop_last()[i]).path {
                Some(p) => p.len() > 0 && p != "-i"@,
                None => true,
            });
        lemma_outputs_tokens_ok(os.drop_last());
        let last = os.last();
        assert(forall|j: int| 0 <= j < last.args.len() ==> flag_token_ok(#[trigger] last.args[j]));
        let left = outputs_tokens(os.drop_last());
        let right = output_tokens(last);
        assert forall|k: int|
            0 <= k < right.len() implies (#[trigger] right[k]).len() > 0 && right[k] != "-i"@ by {
            if k < last.args.len() {
                assert(right[k] == last.args[k]);
            } else {
                match last.path {
                    Some(p) => {
                        assert(right[k] == p);
                    },
                    None => {
                        if k == last.args.len() {
                            assert(right[k] == "-f"@);
                        } else if k == last.args.len() + 1 {
                            assert(right[k] == "null"@);
                        } else {
                            assert(right[k] == "-"@);
                        }
                    },
                }
            }
        }
        assert(outputs_tokens(os) == left + right);
        assert forall|k: int|
            0 <= k < outputs_tokens(os).len() implies (#[trigger] outputs_tokens(os)[k]).len() > 0
            && outputs_tokens(os)[k] != "-i"@ by {
            if k < left.len() {
                assert(outputs_tokens(os)[k] == left[k]);
            } else {
                assert(outputs_tokens(os)[k] == right[k - left.len()]);
            }
        }
    }
}

/// Tokens that are not the input marker are swept into the buffer.
proof fn lemma_parse_flags(
    args: Seq<Seq<char>>,
    tail: Seq<Seq<char>>,
    buf: Seq<Seq<char>>,
    acc: Seq<InputView>,
)
    requires
        forall|j: int| 0 <= j < args.len() ==> #[trigger] args[j] != "-i"@,
    ensures
        parse_groups(args + tail, buf, acc) == parse_groups(tail, buf + args, acc),
    decreases args.len(),
{
    if args.len() == 0 {
        assert(args + tail =~= tail);
        assert(buf + args =~= buf);
    } else {
        let ts = args + tail;
        assert(ts[0] == args[0]);
        assert(ts.skip(1) =~= args.drop_first() + tail);
        assert(buf.push(ts[0]) =~= buf + seq![args[0]]);
        assert(forall|j: int|
            0 <= j < args.drop_first().len() ==> #[trigger] args.drop_first()[j] != "-i"@);
        lemma_parse_flags(args.drop_first(), tail, buf + seq![args[0]], acc);
        assert(buf + seq![args[0]] + args.drop_first() =~= buf + args);
    }
}

/// The tokens of a series of input groups parse back to those groups.
proof fn lemma_parse_inputs(is: Seq<InputView>, rest: Seq<Seq<char>>, acc: Seq<InputView>)
    requires
        forall|i: int, j: int|
            0 <= i < is.len() && 0 <= j < is[i].args.len() ==> #[trigger] is[i].args[j] != "-i"@,
    ensures
        parse_groups(inputs_tokens(is) + rest, Seq::empty(), acc) == parse_groups(
            rest,
            Seq::empty(),
            acc + is,
        ),
    decreases is.len(),
{
    if is.len() == 0 {
        assert(inputs_tokens(is) + rest =~= rest);
        assert(acc + is =~= acc);
    } else {
        lemma_inputs_tokens_first(is);
        let first = is[0];
        let rest2 = inputs_tokens(is.drop_first()) + rest;
        assert(inputs_tokens(is) + rest =~= first.args + (seq!["-i"@, first.path] + rest2));
        assert(forall|j: int| 0 <= j < first.args.len() ==> #[trigger] first.args[j] != "-i"@);
        lemma_parse_flags(first.args, seq!["-i"@, first.path] + rest2, Seq::empty(), acc);
        let ts = seq!["-i"@, first.path] + rest2;
        assert(ts[0] == "-i"@);
        assert(ts.len() >= 2);
        assert(ts[1] == first.path);
        assert(ts.skip(2) =~= rest2);
        assert(Seq::empty() + first.args =~= first.args);
        assert(InputView { path: ts[1], args: first.args } == first);
        assert(forall|i: int, j: int|
            0 <= i < is.drop_first().len() && 0 <= j < is.drop_first()[i].args.len()
                ==> #[trigger] is.drop_first()[i].args[j] != "-i"@);
        lemma_parse_inputs(is.drop_first(), rest, acc.push(first));
        assert(acc.push(first) + is.drop_first() =~= acc + is);
    }
}

/// Serializing, reading back, and serializing again reproduces the same
/// command line, for any well-formed argument set.
pub proof fn lemma_cli_round_trip(a: ArgsView)
    requires
        wf_args(a),
    ensures
        spec_parse_cli(spec_cli_tokens(a)) is Some,
        spec_cli_tokens(spec_parse_cli(spec_cli_tokens(a)).unwrap()) == spec_cli_tokens(a),
{
    reveal_strlit("-hide_banner");
    reveal_strlit("-progress");
    reveal_strlit("-");
    reveal_strlit("-nostats");
    reveal_strlit("-i");
    reveal_strlit("-y");
    let pre = preamble_tokens();
    let ins = inputs_tokens(a.inputs);
    let outs = outputs_tokens(a.outputs);
    let s0 = pre + ins + outs + seq!["-y"@];
    lemma_inputs_tokens_nonempty(a.inputs);
    lemma_outputs_tokens_ok(a.outputs);
    lemma_keep_nonempty_add(pre + ins + outs, seq!["-y"@]);
    lemma_keep_nonempty_add(pre + ins, outs);
    lemma_keep_nonempty_add(pre, ins);
    lemma_keep_nonempty_id(pre);
    lemma_keep_nonempty_id(ins);
    lemma_keep_nonempty_id(outs);
    lemma_keep_nonempty_id(seq!["-y"@]);
    assert(spec_cli_tokens(a) == keep_nonempty(s0));
    assert(keep_nonempty(s0) =~= s0);
    let ts = spec_cli_tokens(a);
    assert(ts =~= s0);
    assert(ts.len() >= 5);
    assert(ts.subrange(0, 4) =~= pre);
    assert(ts.last() == "-y"@);
    let mid = ts.subrange(4, ts.len() - 1);
    assert(mid =~= ins + outs);
    lemma_parse_inputs(a.inputs, outs, Seq::empty());
    assert(Seq::<InputView>::empty() + a.inputs =~= a.inputs);
    lemma_parse_flags(outs, Seq::empty(), Seq::empty(), a.inputs);
    assert(outs + Seq::<Seq<char>>::empty() =~= outs);
    assert(Seq::<Seq<char>>::empty() + outs =~= outs);
    assert(parse_groups(mid, Seq::empty(), Seq::empty()) == Some(
        ParseMid { inputs: a.inputs, buf: outs },
    ));
    let b = spec_parse_cli(ts).unwrap();
    assert(b.inputs == a.inputs);
    let bouts = outputs_tokens(b.outputs);
    if outs.len() == 0 {
        assert(bouts =~= outs);
    } else {
        assert(b.outputs == seq![
            OutputView { path: Some(outs.last()), args: outs.drop_last() },
        ]);
        assert(b.outputs.drop_last() =~= Seq::<OutputView>::empty());
        assert(outputs_tokens(Seq::<OutputView>::empty()) =~= Seq::<Seq<char>>::empty());
        assert(bouts =~= output_tokens(b.outputs.last()));
        assert(output_tokens(b.outputs.last()) =~= outs);
    }
    let s1 = pre + inputs_tokens(b.inputs) + bouts + seq!["-y"@];
    assert(s1 =~= s0);
    lemma_keep_nonempty_add(pre + inputs_tokens(b.inputs) + bouts, seq!["-y"@]);
    lemma_keep_nonempty_add(pre + inputs_tokens(b.inputs), bouts);
    lemma_keep_nonempty_add(pre, inputs_tokens(b.inputs));
    lemma_keep_nonempty_id(bouts);
    assert(spec_cli_tokens(b) == keep_nonempty(s1));
    assert(keep_nonempty(s1) =~= s1);
}

} // verus!

verus! {

impl TaskArgs {
    /// Reads an argument set back from a serialized command line, as
    /// [`spec_parse_cli`] describes.
    pub fn from_cli_args(tokens: &Vec<String>) -> (r: Option<TaskArgs>)
        ensures
            match r {
                Some(b) => spec_parse_cli(tokens.deep_view()) == Some(b@),
                None => spec_parse_cli(tokens.deep_view()) is None,
            },
    {
        let ghost ts = tokens.deep_view();
        let n = tokens.len();
        if n < 5 {
            return None;
        }
        let pre_ok = str_eq(tokens[0].as_str(), "-hide_banner") && str_eq(
            tokens[1].as_str(),
            "-progress",
        ) && str_eq(tokens[2].as_str(), "-") && str_eq(tokens[3].as_str(), "-nostats");
        if !pre_ok {
            proof {
                if ts.subrange(0, 4) == preamble_tokens() {
                    assert(ts[0] == ts.subrange(0, 4)[0]);
                    assert(ts[1] == ts.subrange(0, 4)[1]);
                    assert(ts[2] == ts.subrange(0, 4)[2]);
                    assert(ts[3] == ts.subrange(0, 4)[3]);
                }
            }
            return None;
        }
        proof {
            assert(ts.subrange(0, 4) =~= preamble_tokens());
        }
        if !str_eq(tokens[n - 1].as_str(), "-y") {
            return None;
        }
        let ghost mid = ts.subrange(4, ts.len() - 1);
        let mut inputs: Vec<TaskInputArgs> = Vec::new();
        let mut buf: Vec<String> = Vec::new();
        let mut idx: usize = 4;
        let ghost full_parse = parse_groups(mid, Seq::empty(), Seq::empty());
        proof {
            assert(inputs@ =~= Seq::<TaskInputArgs>::empty());
            assert(Seq::new(inputs@.len(), |i: int| inputs@[i]@) =~= Seq::<InputView>::empty());
            assert(buf.deep_view() =~= Seq::<Seq<char>>::empty());
            assert(mid.skip(idx - 4) =~= mid);
        }
        while idx < n - 1
            invariant
                4 <= idx <= n - 1,
                n == tokens.len(),
                n >= 5,
                ts == tokens.deep_view(),
                ts.len() == n,
                ts.subrange(0, 4) == preamble_tokens(),
                ts.last() == "-y"@,
                mid == ts.subrange(4, ts.len() - 1),
                full_parse == parse_groups(mid, Seq::empty(), Seq::empty()),
                full_parse == parse_groups(
                    mid.skip(idx - 4),
                    buf.deep_view(),
                    Seq::new(inputs@.len(), |i: int| inputs@[i]@),
                ),
            decreases n - idx,
        {
            let ghost rem = mid.skip(idx - 4);
            proof {
                assert(rem[0] == mid[idx - 4]);
                assert(mid[idx - 4] == ts[idx as int]);
            }
            let ghost prev_views = Seq::new(inputs@.len(), |i: int| inputs@[i]@);
            let ghost prev_buf = buf.deep_view();
            if str_eq(tokens[idx].as_str(), "-i") {
                if idx + 1 < n - 1 {
                    proof {
                        assert(rem.len() >= 2);
                        assert(rem[1] == mid[idx - 4 + 1]);
                        assert(mid[idx - 4 + 1] == ts[idx + 1]);
                    }
                    let path = tokens[idx + 1].clone();
                    let group = TaskInputArgs { path, args: buf };
                    proof {
                        assert(group@ == InputView { path: rem[1], args: prev_buf });
                    }
                    buf = Vec::new();
                    inputs.push(group);
                    proof {
                        assert(rem.skip(2) =~= mid.skip(idx + 2 - 4));
                        assert(buf.deep_view() =~= Seq::<Seq<char>>::empty());
                        assert(Seq::new(inputs@.len(), |i: int| inputs@[i]@) =~= prev_views.push(
                            InputView { path: rem[1], args: prev_buf },
                        ));
                    }
                    idx = idx + 2;
                } else {
                    proof {
                        assert(rem.len() == 1);
                    }
                    return None;
                }
            } else {
                let t = tokens[idx].clone();
                buf.push(t);
                proof {
                    assert(rem.skip(1) =~= mid.skip(idx + 1 - 4));
                    assert(buf.deep_view() =~= prev_buf.push(rem[0]));
                }
                idx = idx + 1;
            }
        }
        proof {
            assert(mid.skip(idx - 4) =~= Seq::<Seq<char>>::empty());
        }
        let ghost final_buf = buf.deep_view();
        let outputs: Vec<TaskOutputArgs> = if buf.len() == 0 {
            Vec::new()
        } else {
            let mut outs: Vec<TaskOutputArgs> = Vec::new();
            let mut group = buf;
            let last = group.pop().unwrap();
            proof {
                assert(last@ == final_buf.last());
                assert(group.deep_view() =~= final_buf.drop_last());
            }
            outs.push(TaskOutputArgs { path: Some(last), args: group });
            proof {
                assert(Seq::new(outs@.len(), |i: int| outs@[i]@) =~= seq![
                    OutputView { path: Some(final_buf.last()), args: final_buf.drop_last() },
                ]);
            }
            outs
        };
        let r = TaskArgs { inputs, outputs };
        proof {
            assert(r@.inputs =~= Seq::new(r.inputs@.len(), |i: int| r.inputs@[i]@));
            let m = full_parse.unwrap();
            assert(m.inputs == r@.inputs);
            if m.buf.len() == 0 {
                assert(r@.outputs =~= Seq::<OutputView>::empty());
            } else {
                assert(r@.outputs =~= seq![
                    OutputView { path: Some(m.buf.last()), args: m.buf.drop_last() },
                ]);
            }
            assert(spec_parse_cli(ts) == Some(r@));
        }
        Some(r)
    }
}

} // verus!
