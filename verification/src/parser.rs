//! Line-oriented decoder for the subprocess progress stream.
//!
//! Each line is trimmed, recorded raw, and — when it carries `key=value`
//! with the value taken up to the second `=` — dispatched on the key.
//! Counter keys store whole numbers; decimal keys store their validated
//! token (bitrate loses its seven-character unit suffix, speed its
//! one-character suffix, and the literal `N/A` clears either); the
//! `progress` key emits the collected message on `continue`, emits and
//! reports completion on `end`, and is otherwise ignored; unrecognized
//! keys leave only the raw record.

use vstd::prelude::*;

use crate::message::MessageView;
use crate::message::RunningView;
use crate::message::TaskMessage;
use crate::message::TaskRunningMessage;
use crate::message::cleared;
use crate::progress::token_size;
use crate::strutil::all_digits;
use crate::strutil::find_char;
use crate::strutil::find_from;
use crate::strutil::spec_trim;
use crate::strutil::str_eq;
use crate::strutil::trim;

verus! {

/// The key and value of a progress line: the trimmed segments before the
/// first `=` and between the first and second `=`, when the line has one.
pub open spec fn line_kv(l: Seq<char>) -> Option<(Seq<char>, Seq<char>)> {
    let t = spec_trim(l);
    let k1 = find_from(t, '=', 0);
    if k1 == t.len() {
        None
    } else {
        let k2 = find_from(t, '=', k1 + 1);
        Some((spec_trim(t.take(k1)), spec_trim(t.subrange(k1 + 1, k2))))
    }
}

/// A plain decimal token: an optional minus, digits, and at most one
/// dot with digits after it.  This is narrower than a float parse —
/// `.5`, `5.`, exponent or infinity forms are dropped — and covers
/// everything the supervised tool emits.
pub open spec fn is_decimal(s: Seq<char>) -> bool {
    let body = if s.len() > 0 && s[0] == '-' {
        s.skip(1)
    } else {
        s
    };
    let dot = find_from(body, '.', 0);
    if dot == body.len() {
        body.len() > 0 && all_digits(body)
    } else {
        dot > 0 && all_digits(body.take(dot)) && body.len() - dot - 1 > 0 && all_digits(
            body.skip(dot + 1),
        )
    }
}

/// A decimal field keeps its validated token and drops anything else.
pub open spec fn decimal_update(v: Seq<char>) -> Option<Seq<char>> {
    if is_decimal(v) {
        Some(v)
    } else {
        None
    }
}

/// The bitrate value: absent on `N/A`, else the token with its
/// seven-character unit suffix removed, when what remains is decimal.
pub open spec fn bitrate_update(v: Seq<char>) -> Option<Seq<char>> {
    if v == "N/A"@ {
        None
    } else if v.len() >= 7 {
        decimal_update(v.take(v.len() - 7))
    } else {
        None
    }
}

/// The speed value: absent on `N/A`, else the token with its trailing
/// unit character removed, when what remains is decimal.
pub open spec fn speed_update(v: Seq<char>) -> Option<Seq<char>> {
    if v == "N/A"@ {
        None
    } else if v.len() >= 1 {
        decimal_update(v.take(v.len() - 1))
    } else {
        None
    }
}

/// The message after decoding one line: the trimmed line recorded raw,
/// and the field its key names (if any) replaced by the decoded value.
pub open spec fn step_fields(m: RunningView, l: Seq<char>) -> RunningView {
    let t = spec_trim(l);
    let m1 = RunningView { raw: m.raw.push(t), ..m };
    match line_kv(l) {
        None => m1,
        Some((k, v)) => if k == "frame"@ {
            RunningView { frame: token_size(v), ..m1 }
        } else if k == "fps"@ {
            RunningView { fps: decimal_update(v), ..m1 }
        } else if k == "bitrate"@ {
            RunningView { bitrate: bitrate_update(v), ..m1 }
        } else if k == "total_size"@ {
            RunningView { total_size: token_size(v), ..m1 }
        } else if k == "out_time_ms"@ {
            RunningView { output_time_ms: token_size(v), ..m1 }
        } else if k == "dup_frames"@ {
            RunningView { dup_frames: token_size(v), ..m1 }
        } else if k == "drop_frames"@ {
            RunningView { drop_frames: token_size(v), ..m1 }
        } else if k == "speed"@ {
            RunningView { speed: speed_update(v), ..m1 }
        } else {
            m1
        },
    }
}

/// Whether the line makes the message ship: a `progress` key valued
/// `continue` or `end`.
pub open spec fn step_emits(l: Seq<char>) -> bool {
    match line_kv(l) {
        Some((k, v)) => k == "progress"@ && (v == "continue"@ || v == "end"@),
        None => false,
    }
}

/// Whether the line reports the stream finished: `progress=end`.
pub open spec fn step_finishes(l: Seq<char>) -> bool {
    match line_kv(l) {
        Some((k, v)) => k == "progress"@ && v == "end"@,
        None => false,
    }
}

/// Decodes one line into `msg`, as [`step_fields`] describes; returns
/// the emitted event (the message is cleared after an emission) and
/// whether the stream reported completion.
pub fn parse_line(msg: &mut TaskRunningMessage, line: &str) -> (r: (Option<TaskMessage>, bool))
    ensures
        ({
            let m1 = step_fields(old(msg)@, line@);
            &&& r.1 == step_finishes(line@)
            &&& match r.0 {
                Some(ev) => step_emits(line@) && ev@ == MessageView::Running(m1) && final(msg)@
                    == cleared(m1),
                None => !step_emits(line@) && final(msg)@ == m1,
            }
        }),
{
    let ghost m0 = msg@;
    let trimmed: &str = trim(line);
    let ghost t = spec_trim(line@);
    let ghost raw_before = msg.raw.deep_view();
    msg.raw.push(String::from_str(trimmed));
    proof {
        assert(msg.raw.deep_view() =~= raw_before.push(t));
        assert(msg@ == RunningView { raw: m0.raw.push(t), ..m0 });
    }
    let ghost m1 = step_fields(m0, line@);
    let tlen: usize = trimmed.unicode_len();
    let k1 = find_char(trimmed, '=', 0);
    if k1 == tlen {
        return (None, false);
    }
    let k2 = find_char(trimmed, '=', k1 + 1);
    let key: &str = trim(trimmed.substring_char(0, k1));
    let value: &str = trim(trimmed.substring_char(k1 + 1, k2));
    proof {
        assert(key@ == spec_trim(t.take(k1 as int)));
        assert(value@ == spec_trim(t.subrange(k1 as int + 1, k2 as int)));
        assert(line_kv(line@) == Some((key@, value@)));
        reveal_strlit("frame");
        reveal_strlit("fps");
        reveal_strlit("bitrate");
        reveal_strlit("total_size");
        reveal_strlit("out_time_ms");
        reveal_strlit("dup_frames");
        reveal_strlit("drop_frames");
        reveal_strlit("speed");
        reveal_strlit("progress");
    }
    if str_eq(key, "frame") {
        msg.frame = crate::progress::parse_size_token(value);
        proof {
            assert(msg@ == step_fields(m0, line@));
        }
        (None, false)
    } else if str_eq(key, "fps") {
        msg.fps = parse_decimal_token(value);
        proof {
            assert(msg@ == step_fields(m0, line@));
        }
        (None, false)
    } else if str_eq(key, "bitrate") {
        msg.bitrate = parse_bitrate_token(value);
        proof {
            assert(msg@ == step_fields(m0, line@));
        }
        (None, false)
    } else if str_eq(key, "total_size") {
        msg.total_size = crate::progress::parse_size_token(value);
        proof {
            assert(msg@ == step_fields(m0, line@));
        }
        (None, false)
    } else if str_eq(key, "out_time_ms") {
        msg.output_time_ms = crate::progress::parse_size_token(value);
        proof {
            assert(msg@ == step_fields(m0, line@));
        }
        (None, false)
    } else if str_eq(key, "dup_frames") {
        msg.dup_frames = crate::progress::parse_size_token(value);
        proof {
            assert(msg@ == step_fields(m0, line@));
        }
        (None, false)
    } else if str_eq(key, "drop_frames") {
        msg.drop_frames = crate::progress::parse_size_token(value);
        proof {
            assert(msg@ == step_fields(m0, line@));
        }
        (None, false)
    } else if str_eq(key, "speed") {
        msg.speed = parse_speed_token(value);
        proof {
            assert(msg@ == step_fields(m0, line@));
        }
        (None, false)
    } else if str_eq(key, "progress") {
        let is_continue = str_eq(value, "continue");
        let is_end = str_eq(value, "end");
        if is_continue || is_end {
            proof {
                assert(msg@ == step_fields(m0, line@));
            }
            let ev = TaskMessage::running(msg);
            msg.clear();
            proof {
                assert(msg@ == cleared(step_fields(m0, line@)));
            }
            (Some(ev), is_end)
        } else {
            proof {
                assert(msg@ == step_fields(m0, line@));
                assert(!step_emits(line@));
            }
            (None, false)
        }
    } else {
        proof {
            assert(msg@ == step_fields(m0, line@));
            assert(!step_emits(line@));
        }
        (None, false)
    }
}

/// Whether `s` is nonempty and all digits.
fn digits_nonempty(s: &str) -> (r: bool)
    ensures
        r == (s@.len() > 0 && all_digits(s@)),
{
    let len: usize = s.unicode_len();
    if len == 0 {
        return false;
    }
    let mut i: usize = 0;
    while i < len
        invariant
            len == s@.len(),
            i <= len,
            forall|j: int| 0 <= j < i ==> '0' <= #[trigger] s@[j] <= '9',
        decreases len - i,
    {
        let c = s.get_char(i);
        if c < '0' || c > '9' {
            return false;
        }
        i = i + 1;
    }
    true
}

/// Validates a decimal token, as [`decimal_update`].
fn parse_decimal_token(v: &str) -> (r: Option<String>)
    ensures
        match r {
            Some(s) => decimal_update(v@) == Some(s@),
            None => decimal_update(v@) is None,
        },
{
    let len: usize = v.unicode_len();
    let o: usize = if len > 0 && v.get_char(0) == '-' {
        1
    } else {
        0
    };
    let body = v.substring_char(o, len);
    proof {
        if o == 1 {
            assert(body@ =~= v@.skip(1));
        } else {
            assert(body@ =~= v@);
        }
    }
    let blen: usize = body.unicode_len();
    let dot = find_char(body, '.', 0);
    let ok: bool = if dot == blen {
        digits_nonempty(body)
    } else {
        let ipart = body.substring_char(0, dot);
        let fpart = body.substring_char(dot + 1, blen);
        proof {
            assert(ipart@ =~= body@.take(dot as int));
            assert(fpart@ =~= body@.skip(dot as int + 1));
        }
        dot > 0 && digits_nonempty(ipart) && digits_nonempty(fpart)
    };
    if ok {
        Some(String::from_str(v))
    } else {
        None
    }
}

/// Reads a bitrate value, as [`bitrate_update`].
fn parse_bitrate_token(v: &str) -> (r: Option<String>)
    ensures
        match r {
            Some(s) => bitrate_update(v@) == Some(s@),
            None => bitrate_update(v@) is None,
        },
{
    if str_eq(v, "N/A") {
        return None;
    }
    let len: usize = v.unicode_len();
    if len < 7 {
        return None;
    }
    let w = v.substring_char(0, len - 7);
    proof {
        assert(w@ =~= v@.take(v@.len() - 7));
    }
    parse_decimal_token(w)
}

/// Reads a speed value, as [`speed_update`].
fn parse_speed_token(v: &str) -> (r: Option<String>)
    ensures
        match r {
            Some(s) => speed_update(v@) == Some(s@),
            None => speed_update(v@) is None,
        },
{
    if str_eq(v, "N/A") {
        return None;
    }
    let len: usize = v.unicode_len();
    if len < 1 {
        return None;
    }
    let w = v.substring_char(0, len - 1);
    proof {
        assert(w@ =~= v@.take(v@.len() - 1));
    }
    parse_decimal_token(w)
}

/// Decoding the same line twice leaves every field as the first
/// decoding did; only the raw record grows by the line again.  (A line
/// that emits clears the message, so it is outside this statement.)
pub proof fn lemma_parse_line_idempotent(m: RunningView, l: Seq<char>)
    requires
        !step_emits(l),
    ensures
        step_fields(step_fields(m, l), l) == (RunningView {
            raw: step_fields(m, l).raw.push(spec_trim(l)),
            ..step_fields(m, l)
        }),
{
}

} // verus!
