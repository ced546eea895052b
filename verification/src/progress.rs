//! Pre-flight computation of a task's progress basis.
//!
//! Before a task starts, its outputs are classified from their clipping
//! flags, and — when every classified output is an offset — the probed
//! durations of its inputs are clipped by the inputs' own flags.  The
//! result names the denominator a UI can render progress against: a
//! duration, a file size, or nothing.  All durations are integer
//! microseconds, as read by [`crate::duration::extract_duration`].

use vstd::prelude::*;

use crate::args::ArgsView;
use crate::args::TaskArgs;
use crate::duration::MAX_DURATION_US;
use crate::duration::extract_duration;
use crate::duration::spec_duration_us;
use crate::strutil::all_digits;
use crate::strutil::digits_val;
use crate::strutil::parse_u64_digits;
use crate::strutil::str_eq;

verus! {

/// The progress basis of a task: a total duration in microseconds, a
/// total output size in bytes, or nothing the UI can count against.
#[derive(Clone, Copy, Debug)]
pub enum ProgressType {
    ByDuration { duration: i64 },
    ByFileSize { size: usize },
    Unspecified,
}

/// The clipping flags read from one argument list, each the value of the
/// last well-formed occurrence of its flag.
pub struct ProgressArgs {
    pub ss: Option<i64>,
    pub sseof: Option<i64>,
    pub to: Option<i64>,
    pub t: Option<i64>,
    pub fs: Option<usize>,
}

/// Mathematical image of [`ProgressArgs`].
pub ghost struct ProgressArgsView {
    pub ss: Option<int>,
    pub sseof: Option<int>,
    pub to: Option<int>,
    pub t: Option<int>,
    pub fs: Option<int>,
}

impl View for ProgressArgs {
    type V = ProgressArgsView;

    open spec fn view(&self) -> ProgressArgsView {
        ProgressArgsView {
            ss: match self.ss {
                Some(v) => Some(v as int),
                None => None,
            },
            sseof: match self.sseof {
                Some(v) => Some(v as int),
                None => None,
            },
            to: match self.to {
                Some(v) => Some(v as int),
                None => None,
            },
            t: match self.t {
                Some(v) => Some(v as int),
                None => None,
            },
            fs: match self.fs {
                Some(v) => Some(v as int),
                None => None,
            },
        }
    }
}

/// Value of a duration token that is accepted and in range.
pub open spec fn token_duration(s: Seq<char>) -> Option<int> {
    match spec_duration_us(s) {
        Some(v) => if -MAX_DURATION_US <= v <= MAX_DURATION_US {
            Some(v)
        } else {
            None
        },
        None => None,
    }
}

/// Value of a byte-count token that is accepted and in range: plain
/// digits, without the leading `+` a standard integer parse would
/// allow.
pub open spec fn token_size(s: Seq<char>) -> Option<int> {
    if s.len() > 0 && all_digits(s) && digits_val(s) <= usize::MAX {
        Some(digits_val(s))
    } else {
        None
    }
}

/// Whether `tok` is one of the clipping flags.
pub open spec fn is_clip_flag(tok: Seq<char>) -> bool {
    tok == "-ss"@ || tok == "-sseof"@ || tok == "-to"@ || tok == "-t"@ || tok == "-fs"@
}

/// Scans a token list for clipping flags, each flag taking the token
/// after it as its value; a flag that ends the list takes nothing.
pub open spec fn scan_progress_args(
    ts: Seq<Seq<char>>,
    i: int,
    acc: ProgressArgsView,
) -> ProgressArgsView
    decreases ts.len() - i,
{
    if i < 0 || i >= ts.len() {
        acc
    } else {
        let tok = ts[i];
        if is_clip_flag(tok) {
            if i + 1 >= ts.len() {
                acc
            } else {
                let v = ts[i + 1];
                let acc2 = if tok == "-ss"@ {
                    ProgressArgsView { ss: token_duration(v), ..acc }
                } else if tok == "-sseof"@ {
                    ProgressArgsView { sseof: token_duration(v), ..acc }
                } else if tok == "-to"@ {
                    ProgressArgsView { to: token_duration(v), ..acc }
                } else if tok == "-t"@ {
                    ProgressArgsView { t: token_duration(v), ..acc }
                } else {
                    ProgressArgsView { fs: token_size(v), ..acc }
                };
                scan_progress_args(ts, i + 2, acc2)
            }
        } else {
            scan_progress_args(ts, i + 1, acc)
        }
    }
}

/// The clipping flags of a whole token list.
pub open spec fn spec_progress_args(ts: Seq<Seq<char>>) -> ProgressArgsView {
    scan_progress_args(
        ts,
        0,
        ProgressArgsView { ss: None, sseof: None, to: None, t: None, fs: None },
    )
}

impl ProgressArgsView {
    /// Every present duration is in range and every size fits.
    pub open spec fn in_range(self) -> bool {
        &&& match self.ss {
            Some(v) => -MAX_DURATION_US <= v <= MAX_DURATION_US,
            None => true,
        }
        &&& match self.sseof {
            Some(v) => -MAX_DURATION_US <= v <= MAX_DURATION_US,
            None => true,
        }
        &&& match self.to {
            Some(v) => -MAX_DURATION_US <= v <= MAX_DURATION_US,
            None => true,
        }
        &&& match self.t {
            Some(v) => -MAX_DURATION_US <= v <= MAX_DURATION_US,
            None => true,
        }
        &&& match self.fs {
            Some(v) => 0 <= v <= usize::MAX,
            None => true,
        }
    }
}

/// The scan only ever stores in-range values.
pub proof fn lemma_scan_in_range(ts: Seq<Seq<char>>, i: int, acc: ProgressArgsView)
    requires
        acc.in_range(),
    ensures
        scan_progress_args(ts, i, acc).in_range(),
    decreases ts.len() - i,
{
    if 0 <= i < ts.len() {
        let tok = ts[i];
        if is_clip_flag(tok) {
            if i + 1 < ts.len() {
                let v = ts[i + 1];
                if token_size(v) is Some {
                    crate::strutil::lemma_digits_val_nonneg(v);
                }
                let acc2 = if tok == "-ss"@ {
                    ProgressArgsView { ss: token_duration(v), ..acc }
                } else if tok == "-sseof"@ {
                    ProgressArgsView { sseof: token_duration(v), ..acc }
                } else if tok == "-to"@ {
                    ProgressArgsView { to: token_duration(v), ..acc }
                } else if tok == "-t"@ {
                    ProgressArgsView { t: token_duration(v), ..acc }
                } else {
                    ProgressArgsView { fs: token_size(v), ..acc }
                };
                lemma_scan_in_range(ts, i + 2, acc2);
            }
        } else {
            lemma_scan_in_range(ts, i + 1, acc);
        }
    }
}

/// Finds the clipping flags in an argument list, in the
/// `-ss -sseof -to -t -fs` family, later occurrences overriding earlier
/// ones.
pub fn find_progress_args(args: &Vec<String>) -> (r: ProgressArgs)
    ensures
        r@ == spec_progress_args(args.deep_view()),
        r@.in_range(),
{
    let ghost ts = args.deep_view();
    let mut acc = ProgressArgs { ss: None, sseof: None, to: None, t: None, fs: None };
    let mut i: usize = 0;
    let n = args.len();
    proof {
        assert(ts.len() == n);
    }
    while i < n
        invariant
            i <= n,
            n == args.len(),
            ts == args.deep_view(),
            ts.len() == n,
            acc@.in_range(),
            spec_progress_args(ts) == scan_progress_args(ts, i as int, acc@),
        decreases n - i,
    {
        let ghost i0 = i as int;
        let ghost acc0 = acc@;
        let tok = &args[i];
        proof {
            assert(ts[i as int] == args@[i as int]@);
        }
        let is_ss = str_eq(tok.as_str(), "-ss");
        let is_sseof = str_eq(tok.as_str(), "-sseof");
        let is_to = str_eq(tok.as_str(), "-to");
        let is_t = str_eq(tok.as_str(), "-t");
        let is_fs = str_eq(tok.as_str(), "-fs");
        if is_ss || is_sseof || is_to || is_t || is_fs {
            if i + 1 >= n {
                // a trailing flag takes no value; the scan is over
                proof {
                    assert(scan_progress_args(ts, i0, acc0) == acc0);
                    assert(scan_progress_args(ts, n as int, acc0) == acc0);
                }
                i = n;
            } else {
                let v = &args[i + 1];
                proof {
                    assert(ts[i as int + 1] == args@[i as int + 1]@);
                }
                if is_ss || is_sseof || is_to || is_t {
                    let d = extract_duration(v.as_str());
                    proof {
                        assert(match d {
                            Some(x) => token_duration(v@) == Some(x as int),
                            None => token_duration(v@) is None,
                        });
                    }
                    if is_ss {
                        acc.ss = d;
                    } else if is_sseof {
                        acc.sseof = d;
                    } else if is_to {
                        acc.to = d;
                    } else {
                        acc.t = d;
                    }
                } else {
                    acc.fs = parse_size_token(v.as_str());
                }
                proof {
                    let tok_v = ts[i0];
                    let v_tok = ts[i0 + 1];
                    let acc2 = if tok_v == "-ss"@ {
                        ProgressArgsView { ss: token_duration(v_tok), ..acc0 }
                    } else if tok_v == "-sseof"@ {
                        ProgressArgsView { sseof: token_duration(v_tok), ..acc0 }
                    } else if tok_v == "-to"@ {
                        ProgressArgsView { to: token_duration(v_tok), ..acc0 }
                    } else if tok_v == "-t"@ {
                        ProgressArgsView { t: token_duration(v_tok), ..acc0 }
                    } else {
                        ProgressArgsView { fs: token_size(v_tok), ..acc0 }
                    };
                    assert(acc@ == acc2);
                    assert(scan_progress_args(ts, i0, acc0) == scan_progress_args(ts, i0 + 2, acc2));
                }
                i = i + 2;
            }
        } else {
            proof {
                assert(scan_progress_args(ts, i0, acc0) == scan_progress_args(ts, i0 + 1, acc0));
            }
            i = i + 1;
        }
    }
    acc
}

/// Parses a byte-count token, as `-fs` takes it.
pub fn parse_size_token(s: &str) -> (r: Option<usize>)
    ensures
        match r {
            Some(v) => token_size(s@) == Some(v as int),
            None => token_size(s@) is None,
        },
{
    match parse_u64_digits(s) {
        Some(v) => {
            if v <= usize::MAX as u64 {
                Some(v as usize)
            } else {
                None
            }
        },
        None => None,
    }
}

} // verus!

verus! {

/// Mathematical image of one output's contribution to the progress
/// basis.
pub ghost enum SourceView {
    Dur(int),
    Off(int),
    Size(int),
    Unspec,
}

/// What one output contributes to the progress basis.  There is no
/// file-size source for inputs, because the tool reports nothing about
/// input sizes while transcoding.
pub enum OutputProgressSource {
    Duration(i64),
    DurationOffset(i64),
    FileSize(usize),
    Unspecified,
}

impl View for OutputProgressSource {
    type V = SourceView;

    open spec fn view(&self) -> SourceView {
        match *self {
            OutputProgressSource::Duration(v) => SourceView::Dur(v as int),
            OutputProgressSource::DurationOffset(v) => SourceView::Off(v as int),
            OutputProgressSource::FileSize(v) => SourceView::Size(v as int),
            OutputProgressSource::Unspecified => SourceView::Unspec,
        }
    }
}

/// Classifies one output's clipping flags: a size limit wins, then a
/// plain duration (`-t`, or `-to` alone, or `-ss -to` as their
/// difference), then a bare start offset; `-sseof` does not apply to
/// outputs.
pub open spec fn spec_output_source(pa: ProgressArgsView) -> SourceView {
    match pa.fs {
        Some(size) => SourceView::Size(size),
        None => match pa.t {
            Some(t) => SourceView::Dur(t),
            None => match (pa.ss, pa.to) {
                (None, None) => SourceView::Unspec,
                (None, Some(to)) => SourceView::Dur(to),
                (Some(ss), None) => SourceView::Off(ss),
                (Some(ss), Some(to)) => SourceView::Dur(to - ss),
            },
        },
    }
}

/// Classifies one output, as [`spec_output_source`] of its flags.
pub fn find_output_progress_sources(output: &crate::args::TaskOutputArgs) -> (r:
    OutputProgressSource)
    ensures
        r@ == spec_output_source(spec_progress_args(output@.args)),
{
    let pa = find_progress_args(&output.args);
    match pa.fs {
        Some(size) => OutputProgressSource::FileSize(size),
        None => {
            match pa.t {
                Some(t) => OutputProgressSource::Duration(t),
                None => {
                    match (pa.ss, pa.to) {
                        (None, None) => OutputProgressSource::Unspecified,
                        (None, Some(to)) => OutputProgressSource::Duration(to),
                        (Some(ss), None) => OutputProgressSource::DurationOffset(ss),
                        (Some(ss), Some(to)) => OutputProgressSource::Duration(to - ss),
                    }
                },
            }
        },
    }
}

/// The raw effective duration of an input probed at `d`, before
/// clamping, following the clipping table row by row.
pub open spec fn spec_clip_raw(d: int, pa: ProgressArgsView) -> int {
    match (pa.ss, pa.sseof, pa.to, pa.t) {
        (None, None, None, None) => d,
        (None, None, _, Some(t)) => min_i(t, d),
        (None, None, Some(to), None) => min_i(to, d),
        (None, Some(se), None, None) => if se > 0 {
            0
        } else {
            d + se
        },
        (None, Some(se), _, Some(t)) => if se > 0 {
            0
        } else {
            min_i(d + se + t, d) - (d + se)
        },
        (None, Some(se), Some(to), None) => if se > 0 {
            0
        } else {
            if d + se > min_i(to, d) {
                -se
            } else {
                min_i(to, d) - (d + se)
            }
        },
        (Some(ss), None, None, None) => d - min_i(ss, d),
        (Some(ss), _, _, Some(t)) => min_i(ss + t, d) - min_i(ss, d),
        (Some(ss), _, Some(to), None) => if ss > to {
            0
        } else if ss < 0 {
            2 * (-ss) + to
        } else {
            min_i(to, d) - min_i(ss, d)
        },
        (Some(ss), Some(_), None, None) => d - min_i(ss, d),
    }
}

/// The one clipping row allowed to exceed the probed duration: a
/// negative start position together with an end position, preserved
/// verbatim from the supervised tool's observed behavior.
pub open spec fn spec_clip_anomaly(pa: ProgressArgsView) -> bool {
    &&& pa.t is None
    &&& pa.ss matches Some(ss) && ss < 0
    &&& pa.to matches Some(to) && pa.ss matches Some(ss2) && ss2 <= to
}

/// The effective duration of an input probed at `d` microseconds, or
/// nothing when a size limit makes it unusable.  Every row is clamped to
/// be non-negative, and all but the anomaly row to at most `d`.
pub open spec fn spec_input_clip(d: int, pa: ProgressArgsView) -> Option<int> {
    if pa.fs is Some {
        None
    } else {
        let raw = spec_clip_raw(d, pa);
        if spec_clip_anomaly(pa) {
            Some(max_i(0, raw))
        } else {
            Some(max_i(0, min_i(raw, d)))
        }
    }
}

/// Minimum of two mathematical integers.
pub open spec fn min_i(a: int, b: int) -> int {
    if a < b {
        a
    } else {
        b
    }
}

/// Maximum of two mathematical integers.
pub open spec fn max_i(a: int, b: int) -> int {
    if a > b {
        a
    } else {
        b
    }
}

/// Minimum of two durations.
fn min64(a: i64, b: i64) -> (r: i64)
    ensures
        r as int == min_i(a as int, b as int),
{
    if a < b {
        a
    } else {
        b
    }
}

/// Clipped effective duration of one input, as [`spec_input_clip`].
pub fn input_effective_duration(d: i64, pa: &ProgressArgs) -> (r: Option<i64>)
    requires
        0 <= d <= MAX_DURATION_US,
        pa@.in_range(),
    ensures
        match r {
            Some(v) => spec_input_clip(d as int, pa@) == Some(v as int) && 0 <= v <= 3
                * MAX_DURATION_US,
            None => spec_input_clip(d as int, pa@) is None,
        },
{
    if pa.fs.is_some() {
        return None;
    }
    let raw: i64 = match (pa.ss, pa.sseof, pa.to, pa.t) {
        (None, None, None, None) => d,
        (None, None, _, Some(t)) => min64(t, d),
        (None, None, Some(to), None) => min64(to, d),
        (None, Some(se), None, None) => if se > 0 {
            0
        } else {
            d + se
        },
        (None, Some(se), _, Some(t)) => if se > 0 {
            0
        } else {
            min64(d + se + t, d) - (d + se)
        },
        (None, Some(se), Some(to), None) => if se > 0 {
            0
        } else {
            if d + se > min64(to, d) {
                -se
            } else {
                min64(to, d) - (d + se)
            }
        },
        (Some(ss), None, None, None) => d - min64(ss, d),
        (Some(ss), _, _, Some(t)) => min64(ss + t, d) - min64(ss, d),
        (Some(ss), _, Some(to), None) => if ss > to {
            0
        } else if ss < 0 {
            2 * (-ss) + to
        } else {
            min64(to, d) - min64(ss, d)
        },
        (Some(ss), Some(_), None, None) => d - min64(ss, d),
    };
    let anomaly = pa.t.is_none() && (match pa.ss {
        Some(ss) => ss < 0,
        None => false,
    }) && (match (pa.ss, pa.to) {
        (Some(ss), Some(to)) => ss <= to,
        _ => false,
    });
    let clipped: i64 = if anomaly {
        if raw > 0 {
            raw
        } else {
            0
        }
    } else {
        let m = min64(raw, d);
        if m > 0 {
            m
        } else {
            0
        }
    };
    Some(clipped)
}

} // verus!

verus! {

/// Mathematical image of [`ProgressType`].
pub ghost enum ProgressTypeView {
    Dur(int),
    Size(int),
    Unspec,
}

impl View for ProgressType {
    type V = ProgressTypeView;

    open spec fn view(&self) -> ProgressTypeView {
        match *self {
            ProgressType::ByDuration { duration } => ProgressTypeView::Dur(duration as int),
            ProgressType::ByFileSize { size } => ProgressTypeView::Size(size as int),
            ProgressType::Unspecified => ProgressTypeView::Unspec,
        }
    }
}

/// The classified sources of every output of an argument set.
pub open spec fn output_sources(a: ArgsView) -> Seq<SourceView> {
    Seq::new(a.outputs.len(), |i: int| spec_output_source(spec_progress_args(a.outputs[i].args)))
}

pub open spec fn has_dur(ss: Seq<SourceView>) -> bool {
    exists|i: int| 0 <= i < ss.len() && ss[i] is Dur
}

pub open spec fn has_off(ss: Seq<SourceView>) -> bool {
    exists|i: int| 0 <= i < ss.len() && ss[i] is Off
}

pub open spec fn has_size(ss: Seq<SourceView>) -> bool {
    exists|i: int| 0 <= i < ss.len() && ss[i] is Size
}

/// Sum of the size sources.
pub open spec fn sum_sizes(ss: Seq<SourceView>) -> int
    decreases ss.len(),
{
    if ss.len() == 0 {
        0
    } else {
        sum_sizes(ss.drop_last()) + match ss.last() {
            SourceView::Size(v) => v,
            _ => 0,
        }
    }
}

/// Maximum of the duration sources, when any.
pub open spec fn max_dur(ss: Seq<SourceView>) -> Option<int>
    decreases ss.len(),
{
    if ss.len() == 0 {
        None
    } else {
        let m = max_dur(ss.drop_last());
        match ss.last() {
            SourceView::Dur(v) => match m {
                Some(x) => Some(max_i(x, v)),
                None => Some(v),
            },
            _ => m,
        }
    }
}

/// Maximum of the offset sources, when any.
pub open spec fn max_off(ss: Seq<SourceView>) -> Option<int>
    decreases ss.len(),
{
    if ss.len() == 0 {
        None
    } else {
        let m = max_off(ss.drop_last());
        match ss.last() {
            SourceView::Off(v) => match m {
                Some(x) => Some(max_i(x, v)),
                None => Some(v),
            },
            _ => m,
        }
    }
}

/// The clipped effective duration of input `i`, when it was probed and
/// carries no size limit.
pub open spec fn input_eff(a: ArgsView, probes: Seq<Option<int>>, i: int) -> Option<int> {
    match probes[i] {
        Some(d) => spec_input_clip(d, spec_progress_args(a.inputs[i].args)),
        None => None,
    }
}

/// Maximum effective duration over the first `n` inputs, when any.
pub open spec fn max_input_eff(a: ArgsView, probes: Seq<Option<int>>, n: int) -> Option<int>
    decreases n,
{
    if n <= 0 {
        None
    } else {
        let m = max_input_eff(a, probes, n - 1);
        match input_eff(a, probes, n - 1) {
            Some(v) => match m {
                Some(x) => Some(max_i(x, v)),
                None => Some(v),
            },
            None => m,
        }
    }
}

/// The progress basis of an argument set, given the probed duration of
/// each input (`None` when probing yielded no duration).
///
/// When every classified output names a size, the basis is their sum
/// (held at the machine bound); when every one names a duration, it is
/// their maximum; when every one names an offset, it is the largest
/// clipped input duration less the largest offset, or nothing when no
/// input yielded a duration; any other mix yields nothing.
pub open spec fn spec_progress_type(a: ArgsView, probes: Seq<Option<int>>) -> ProgressTypeView {
    let ss = output_sources(a);
    if has_size(ss) && !has_dur(ss) && !has_off(ss) {
        ProgressTypeView::Size(min_i(sum_sizes(ss), usize::MAX as int))
    } else if !has_size(ss) && has_dur(ss) && !has_off(ss) {
        ProgressTypeView::Dur(max_dur(ss).unwrap())
    } else if !has_size(ss) && !has_dur(ss) && has_off(ss) {
        match max_input_eff(a, probes, a.inputs.len() as int) {
            Some(m) => ProgressTypeView::Dur(m - max_off(ss).unwrap()),
            None => ProgressTypeView::Unspec,
        }
    } else {
        ProgressTypeView::Unspec
    }
}

/// Mathematical image of the probed durations.
pub open spec fn probes_view(v: Seq<Option<i64>>) -> Seq<Option<int>> {
    Seq::new(
        v.len(),
        |i: int|
            match v[i] {
                Some(d) => Some(d as int),
                None => None,
            },
    )
}

/// Every probed duration is a non-negative in-range microsecond count.
pub open spec fn probes_ok(v: Seq<Option<i64>>) -> bool {
    forall|i: int|
        0 <= i < v.len() ==> match #[trigger] v[i] {
            Some(d) => 0 <= d <= MAX_DURATION_US,
            None => true,
        }
}

/// Computes the progress basis of `args`, as [`spec_progress_type`].
///
/// `input_durations` holds, for each input in order, its probed duration
/// in microseconds, or `None` when probing yielded none.  The probing
/// itself is the embedding application's work; it is only consulted when
/// every classified output is an offset.
pub fn find_progress_type(args: &TaskArgs, input_durations: &Vec<Option<i64>>) -> (r: ProgressType)
    requires
        input_durations@.len() == args.inputs@.len(),
        probes_ok(input_durations@),
    ensures
        r@ == spec_progress_type(args@, probes_view(input_durations@)),
{
    let ghost av = args@;
    let ghost srcs = output_sources(av);
    let mut sum: usize = 0;
    let mut saw_size = false;
    let mut best_dur: Option<i64> = None;
    let mut best_off: Option<i64> = None;
    let mut k: usize = 0;
    let n = args.outputs.len();
    proof {
        assert(srcs.len() == n);
        assert(srcs.take(0) =~= Seq::<SourceView>::empty());
    }
    while k < n
        invariant
            k <= n,
            n == args.outputs.len(),
            av == args@,
            srcs == output_sources(av),
            srcs.len() == n,
            saw_size == has_size(srcs.take(k as int)),
            (exists|i: int| 0 <= i < k && (#[trigger] srcs[i]) is Dur) == has_dur(srcs.take(k as int)),
            (exists|i: int| 0 <= i < k && (#[trigger] srcs[i]) is Off) == has_off(srcs.take(k as int)),
            sum as int == min_i(sum_sizes(srcs.take(k as int)), usize::MAX as int),
            match best_dur {
                Some(v) => max_dur(srcs.take(k as int)) == Some(v as int) && -2 * MAX_DURATION_US
                    <= v <= 2 * MAX_DURATION_US,
                None => max_dur(srcs.take(k as int)) is None,
            },
            match best_off {
                Some(v) => max_off(srcs.take(k as int)) == Some(v as int) && -MAX_DURATION_US <= v
                    <= MAX_DURATION_US,
                None => max_off(srcs.take(k as int)) is None,
            },
        decreases n - k,
    {
        let ghost pre = srcs.take(k as int);
        let src = find_output_progress_sources(&args.outputs[k]);
        proof {
            assert(args.outputs@[k as int]@ == av.outputs[k as int]);
            assert(src@ == srcs[k as int]);
            assert(srcs.take(k as int + 1).drop_last() =~= pre);
            assert(srcs.take(k as int + 1).last() == srcs[k as int]);
        }
        match src {
            OutputProgressSource::FileSize(s) => {
                saw_size = true;
                if sum > usize::MAX - s {
                    sum = usize::MAX;
                } else {
                    sum = sum + s;
                }
            },
            OutputProgressSource::Duration(v) => {
                proof {
                    let pa = spec_progress_args(av.outputs[k as int].args);
                    lemma_scan_in_range(
                        av.outputs[k as int].args,
                        0,
                        ProgressArgsView { ss: None, sseof: None, to: None, t: None, fs: None },
                    );
                    assert(pa.in_range());
                }
                best_dur = match best_dur {
                    Some(x) => if v > x {
                        Some(v)
                    } else {
                        Some(x)
                    },
                    None => Some(v),
                };
            },
            OutputProgressSource::DurationOffset(v) => {
                proof {
                    let pa = spec_progress_args(av.outputs[k as int].args);
                    lemma_scan_in_range(
                        av.outputs[k as int].args,
                        0,
                        ProgressArgsView { ss: None, sseof: None, to: None, t: None, fs: None },
                    );
                    assert(pa.in_range());
                }
                best_off = match best_off {
                    Some(x) => if v > x {
                        Some(v)
                    } else {
                        Some(x)
                    },
                    None => Some(v),
                };
            },
            OutputProgressSource::Unspecified => {},
        }
        proof {
            assert forall|i: int| 0 <= i < k + 1 && (#[trigger] srcs[i]) is Dur implies has_dur(
                srcs.take(k as int + 1),
            ) by {
                assert(srcs.take(k as int + 1)[i] == srcs[i]);
            }
            if has_dur(srcs.take(k as int + 1)) {
                let i = choose|i: int|
                    0 <= i < srcs.take(k as int + 1).len() && (#[trigger] srcs.take(
                        k as int + 1,
                    )[i]) is Dur;
                assert(srcs[i] is Dur);
            }
            assert forall|i: int| 0 <= i < k + 1 && (#[trigger] srcs[i]) is Off implies has_off(
                srcs.take(k as int + 1),
            ) by {
                assert(srcs.take(k as int + 1)[i] == srcs[i]);
            }
            if has_off(srcs.take(k as int + 1)) {
                let i = choose|i: int|
                    0 <= i < srcs.take(k as int + 1).len() && (#[trigger] srcs.take(
                        k as int + 1,
                    )[i]) is Off;
                assert(srcs[i] is Off);
            }
            if has_size(srcs.take(k as int + 1)) {
                let i = choose|i: int|
                    0 <= i < srcs.take(k as int + 1).len() && (#[trigger] srcs.take(
                        k as int + 1,
                    )[i]) is Size;
                assert(srcs.take(k as int)[i] == srcs[i] || i == k);
            }
        }
        k = k + 1;
    }
    proof {
        assert(srcs.take(n as int) =~= srcs);
        lemma_max_dur_some(srcs);
        lemma_max_off_some(srcs);
    }
    if saw_size && best_dur.is_none() && best_off.is_none() {
        return ProgressType::ByFileSize { size: sum };
    }
    if !saw_size && best_dur.is_some() && best_off.is_none() {
        let duration = match best_dur {
            Some(v) => v,
            None => 0,
        };
        return ProgressType::ByDuration { duration };
    }
    if !saw_size && best_dur.is_none() && best_off.is_some() {
        let off = match best_off {
            Some(v) => v,
            None => 0,
        };
        let mut best_eff: Option<i64> = None;
        let mut i: usize = 0;
        let m = args.inputs.len();
        let ghost pv = probes_view(input_durations@);
        proof {
            assert(pv.len() == m);
        }
        while i < m
            invariant
                i <= m,
                m == args.inputs.len(),
                av == args@,
                pv == probes_view(input_durations@),
                pv.len() == m,
                input_durations@.len() == m,
                probes_ok(input_durations@),
                match best_eff {
                    Some(v) => max_input_eff(av, pv, i as int) == Some(v as int) && 0 <= v <= 3
                        * MAX_DURATION_US,
                    None => max_input_eff(av, pv, i as int) is None,
                },
            decreases m - i,
        {
            match input_durations[i] {
                Some(d) => {
                    let pa = find_progress_args(&args.inputs[i].args);
                    proof {
                        assert(args.inputs@[i as int]@ == av.inputs[i as int]);
                        assert(pa@ == spec_progress_args(av.inputs[i as int].args));
                        assert(pv[i as int] == Some(d as int));
                    }
                    match input_effective_duration(d, &pa) {
                        Some(e) => {
                            best_eff = match best_eff {
                                Some(x) => if e > x {
                                    Some(e)
                                } else {
                                    Some(x)
                                },
                                None => Some(e),
                            };
                        },
                        None => {},
                    }
                },
                None => {
                    proof {
                        assert(pv[i as int] is None);
                        assert(input_eff(av, pv, i as int) is None);
                    }
                },
            }
            i = i + 1;
        }
        match best_eff {
            Some(e) => {
                return ProgressType::ByDuration { duration: e - off };
            },
            None => {
                return ProgressType::Unspecified;
            },
        }
    }
    ProgressType::Unspecified
}

} // verus!

verus! {

/// A duration source exists exactly when the maximum does.
proof fn lemma_max_dur_some(ss: Seq<SourceView>)
    ensures
        (max_dur(ss) is Some) == has_dur(ss),
    decreases ss.len(),
{
    if ss.len() > 0 {
        lemma_max_dur_some(ss.drop_last());
        if ss.last() is Dur {
            assert(ss[ss.len() - 1] is Dur);
        } else {
            if has_dur(ss.drop_last()) {
                let i = choose|i: int|
                    0 <= i < ss.drop_last().len() && (#[trigger] ss.drop_last()[i]) is Dur;
                assert(ss[i] is Dur);
            }
            if has_dur(ss) {
                let i = choose|i: int| 0 <= i < ss.len() && (#[trigger] ss[i]) is Dur;
                assert(i < ss.len() - 1);
                assert(ss.drop_last()[i] is Dur);
            }
        }
    }
}

/// An offset source exists exactly when the maximum does.
proof fn lemma_max_off_some(ss: Seq<SourceView>)
    ensures
        (max_off(ss) is Some) == has_off(ss),
    decreases ss.len(),
{
    if ss.len() > 0 {
        lemma_max_off_some(ss.drop_last());
        if ss.last() is Off {
            assert(ss[ss.len() - 1] is Off);
        } else {
            if has_off(ss.drop_last()) {
                let i = choose|i: int|
                    0 <= i < ss.drop_last().len() && (#[trigger] ss.drop_last()[i]) is Off;
                assert(ss[i] is Off);
            }
            if has_off(ss) {
                let i = choose|i: int| 0 <= i < ss.len() && (#[trigger] ss[i]) is Off;
                assert(i < ss.len() - 1);
                assert(ss.drop_last()[i] is Off);
            }
        }
    }
}

} // verus!

verus! {

/// The maximum duration source is one of the sources and bounds them
/// all.
proof fn lemma_max_dur_props(ss: Seq<SourceView>)
    requires
        max_dur(ss) is Some,
    ensures
        exists|i: int|
            0 <= i < ss.len() && (#[trigger] ss[i]) == SourceView::Dur(max_dur(ss).unwrap()),
        forall|i: int|
            0 <= i < ss.len() ==> match #[trigger] ss[i] {
                SourceView::Dur(v) => v <= max_dur(ss).unwrap(),
                _ => true,
            },
    decreases ss.len(),
{
    if ss.len() > 0 {
        let m = max_dur(ss.drop_last());
        if m is Some {
            lemma_max_dur_props(ss.drop_last());
            let j = choose|j: int|
                0 <= j < ss.drop_last().len() && (#[trigger] ss.drop_last()[j])
                    == SourceView::Dur(m.unwrap());
            assert(ss[j] == SourceView::Dur(m.unwrap()));
        } else {
            lemma_max_dur_some(ss.drop_last());
        }
        match ss.last() {
            SourceView::Dur(v) => {
                assert(ss[ss.len() - 1] == SourceView::Dur(v));
            },
            _ => {},
        }
        assert forall|i: int| 0 <= i < ss.len() implies match #[trigger] ss[i] {
            SourceView::Dur(v) => v <= max_dur(ss).unwrap(),
            _ => true,
        } by {
            if i < ss.len() - 1 {
                assert(ss.drop_last()[i] == ss[i]);
                match ss[i] {
                    SourceView::Dur(v) => {
                        assert(has_dur(ss.drop_last()));
                    },
                    _ => {},
                }
            }
        }
    }
}

/// The maximum offset source bounds every offset source and is one of
/// them.
proof fn lemma_max_off_props(ss: Seq<SourceView>)
    requires
        max_off(ss) is Some,
    ensures
        exists|i: int|
            0 <= i < ss.len() && (#[trigger] ss[i]) == SourceView::Off(max_off(ss).unwrap()),
        forall|i: int|
            0 <= i < ss.len() ==> match #[trigger] ss[i] {
                SourceView::Off(v) => v <= max_off(ss).unwrap(),
                _ => true,
            },
    decreases ss.len(),
{
    if ss.len() > 0 {
        let m = max_off(ss.drop_last());
        if m is Some {
            lemma_max_off_props(ss.drop_last());
            let j = choose|j: int|
                0 <= j < ss.drop_last().len() && (#[trigger] ss.drop_last()[j])
                    == SourceView::Off(m.unwrap());
            assert(ss[j] == SourceView::Off(m.unwrap()));
        } else {
            lemma_max_off_some(ss.drop_last());
        }
        match ss.last() {
            SourceView::Off(v) => {
                assert(ss[ss.len() - 1] == SourceView::Off(v));
            },
            _ => {},
        }
        assert forall|i: int| 0 <= i < ss.len() implies match #[trigger] ss[i] {
            SourceView::Off(v) => v <= max_off(ss).unwrap(),
            _ => true,
        } by {
            if i < ss.len() - 1 {
                assert(ss.drop_last()[i] == ss[i]);
                match ss[i] {
                    SourceView::Off(v) => {
                        assert(has_off(ss.drop_last()));
                    },
                    _ => {},
                }
            }
        }
    }
}

/// The maximum effective input duration is reached by some input.
proof fn lemma_max_input_eff_witness(a: ArgsView, probes: Seq<Option<int>>, n: int)
    requires
        max_input_eff(a, probes, n) is Some,
        n >= 0,
    ensures
        exists|i: int|
            0 <= i < n && #[trigger] input_eff(a, probes, i) == Some(
                max_input_eff(a, probes, n).unwrap(),
            ),
        forall|i: int|
            0 <= i < n ==> match #[trigger] input_eff(a, probes, i) {
                Some(v) => v <= max_input_eff(a, probes, n).unwrap(),
                None => true,
            },
    decreases n,
{
    if n > 0 {
        let m = max_input_eff(a, probes, n - 1);
        if m is Some {
            lemma_max_input_eff_witness(a, probes, n - 1);
        } else {
            lemma_max_input_eff_none(a, probes, n - 1);
        }
    }
}

/// An absent maximum means no input yielded an effective duration.
proof fn lemma_max_input_eff_none(a: ArgsView, probes: Seq<Option<int>>, n: int)
    requires
        max_input_eff(a, probes, n) is None,
        n >= 0,
    ensures
        forall|i: int| 0 <= i < n ==> (#[trigger] input_eff(a, probes, i)) is None,
    decreases n,
{
    if n > 0 {
        lemma_max_input_eff_none(a, probes, n - 1);
    }
}

/// A clipped input duration outside the anomaly row lies between zero
/// and the probed duration.
proof fn lemma_clip_in_bounds(d: int, pa: ProgressArgsView)
    requires
        d >= 0,
        !spec_clip_anomaly(pa),
        spec_input_clip(d, pa) is Some,
    ensures
        0 <= spec_input_clip(d, pa).unwrap() <= d,
{
}

/// When every classified output names a non-negative duration, the
/// resolved basis is a duration: the largest named one, itself
/// non-negative and named by some output.
pub proof fn lemma_duration_basis(a: ArgsView, probes: Seq<Option<int>>)
    requires
        has_dur(output_sources(a)),
        !has_size(output_sources(a)),
        !has_off(output_sources(a)),
        forall|i: int|
            0 <= i < output_sources(a).len() ==> match #[trigger] output_sources(a)[i] {
                SourceView::Dur(v) => v >= 0,
                _ => true,
            },
    ensures
        spec_progress_type(a, probes) matches ProgressTypeView::Dur(v) && v >= 0 && (exists|i: int|
            0 <= i < output_sources(a).len() && (#[trigger] output_sources(a)[i])
                == SourceView::Dur(v)) && (forall|i: int|
            0 <= i < output_sources(a).len() ==> match #[trigger] output_sources(a)[i] {
                SourceView::Dur(w) => w <= v,
                _ => true,
            }),
{
    let ss = output_sources(a);
    lemma_max_dur_some(ss);
    lemma_max_dur_props(ss);
    let v = max_dur(ss).unwrap();
    let i = choose|i: int| 0 <= i < ss.len() && (#[trigger] ss[i]) == SourceView::Dur(v);
    assert(v >= 0);
}

/// When every classified output names a non-negative offset and some
/// input was probed to an effective duration at least the largest
/// offset, the resolved basis is a duration bounded by the probed
/// duration of a participating input, and non-negative.
///
/// The bound asks that no input combine a negative start position with
/// an end position, the one clipping row that may exceed its probed
/// duration.
pub proof fn lemma_offset_basis(a: ArgsView, probes: Seq<Option<int>>)
    requires
        !has_dur(output_sources(a)),
        !has_size(output_sources(a)),
        has_off(output_sources(a)),
        max_input_eff(a, probes, a.inputs.len() as int) is Some,
        forall|i: int|
            0 <= i < output_sources(a).len() ==> match #[trigger] output_sources(a)[i] {
                SourceView::Off(v) => v >= 0,
                _ => true,
            },
        forall|i: int|
            0 <= i < a.inputs.len() ==> !spec_clip_anomaly(
                spec_progress_args((#[trigger] a.inputs[i]).args),
            ),
        forall|i: int|
            0 <= i < probes.len() ==> match #[trigger] probes[i] {
                Some(d) => d >= 0,
                None => true,
            },
        probes.len() == a.inputs.len(),
        max_off(output_sources(a)).unwrap() <= max_input_eff(a, probes, a.inputs.len() as int).unwrap(),
    ensures
        spec_progress_type(a, probes) matches ProgressTypeView::Dur(v) && v >= 0 && (exists|i: int|
            0 <= i < probes.len() && ((#[trigger] probes[i]) matches Some(d) && v <= d)),
{
    let ss = output_sources(a);
    lemma_max_off_some(ss);
    lemma_max_off_props(ss);
    let n = a.inputs.len() as int;
    lemma_max_input_eff_witness(a, probes, n);
    let m = max_input_eff(a, probes, n).unwrap();
    let off = max_off(ss).unwrap();
    let j = choose|j: int| 0 <= j < ss.len() && (#[trigger] ss[j]) == SourceView::Off(off);
    assert(off >= 0);
    let i = choose|i: int| 0 <= i < n && #[trigger] input_eff(a, probes, i) == Some(m);
    assert(probes[i] is Some);
    let d = probes[i].unwrap();
    lemma_clip_in_bounds(d, spec_progress_args(a.inputs[i].args));
    assert(m <= d);
    assert(spec_progress_type(a, probes) == ProgressTypeView::Dur(m - off));
    assert(probes[i] matches Some(dd) && m - off <= dd) by {
        assert(probes[i] == Some(d));
    }
}

} // verus!
