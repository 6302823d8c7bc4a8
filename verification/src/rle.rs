//! Run-length coding of an object's pixels.

use vstd::prelude::*;

verus! {

/// A horizontal span of `count` pixels that share one palette index.
#[derive(Debug, Clone, Copy, PartialEq, Eq, Structural)]
pub struct RlEncodedPixels {
    pub count: u16,
    pub color: u8,
}

/// The run coded at the front of `s` and the number of bytes it takes, or
/// `None` where `s` does not start with a whole run.
///
/// A non-zero byte is one pixel of that colour. A zero byte is followed by a
/// byte whose top two bits select the form: a short or a 14-bit length, of
/// colour zero or of the colour that follows.
pub open spec fn spec_run(s: Seq<u8>) -> Option<(RlEncodedPixels, int)> {
    if s.len() == 0 {
        None
    } else if s[0] != 0 {
        Some((RlEncodedPixels { count: 1, color: s[0] }, 1))
    } else if s.len() < 2 {
        None
    } else {
        let form = s[1] as int / 0x40;
        let low = s[1] as int % 0x40;
        if form == 0 {
            Some((RlEncodedPixels { count: low as u16, color: 0 }, 2))
        } else if form == 1 {
            if s.len() >= 3 {
                Some((RlEncodedPixels { count: (low * 0x100 + s[2] as int) as u16, color: 0 }, 3))
            } else {
                None
            }
        } else if form == 2 {
            if s.len() >= 3 {
                Some((RlEncodedPixels { count: low as u16, color: s[2] }, 3))
            } else {
                None
            }
        } else {
            if s.len() >= 4 {
                Some(
                    (RlEncodedPixels { count: (low * 0x100 + s[2] as int) as u16, color: s[3] }, 4),
                )
            } else {
                None
            }
        }
    }
}

/// The runs that `s` is made of, in order, or `None` where `s` is not a
/// sequence of whole runs.
pub open spec fn spec_decode_runs(s: Seq<u8>) -> Option<Seq<RlEncodedPixels>>
    decreases s.len(),
{
    if s.len() == 0 {
        Some(Seq::empty())
    } else {
        match spec_run(s) {
            None => None,
            Some((run, used)) => match spec_decode_runs(s.skip(used)) {
                None => None,
                Some(rest) => Some(seq![run] + rest),
            },
        }
    }
}

/// The number of pixels that `runs` stand for.
pub open spec fn total_run_length(runs: Seq<RlEncodedPixels>) -> nat
    decreases runs.len(),
{
    if runs.len() == 0 {
        0
    } else {
        total_run_length(runs.drop_last()) + runs.last().count as nat
    }
}

/// Decodes the run at the front of `input`.
pub fn parse_single_encoded_pixel(input: &[u8]) -> (result: Option<(RlEncodedPixels, usize)>)
    ensures
        match result {
            Some((run, used)) => spec_run(input@) == Some((run, used as int)),
            None => spec_run(input@) is None,
        },
{
    let len = input.len();
    if len == 0 {
        return None;
    }
    let first: u8 = input[0];
    if first != 0 {
        return Some((RlEncodedPixels { count: 1, color: first }, 1));
    }
    if len < 2 {
        return None;
    }
    let second: u8 = input[1];
    let form: u8 = second / 0x40;
    let low: u16 = (second % 0x40) as u16;
    if form == 0 {
        Some((RlEncodedPixels { count: low, color: 0 }, 2))
    } else if form == 1 {
        if len >= 3 {
            let count: u16 = low * 0x100 + input[2] as u16;
            Some((RlEncodedPixels { count, color: 0 }, 3))
        } else {
            None
        }
    } else if form == 2 {
        if len >= 3 {
            Some((RlEncodedPixels { count: low, color: input[2] }, 3))
        } else {
            None
        }
    } else {
        if len >= 4 {
            let count: u16 = low * 0x100 + input[2] as u16;
            Some((RlEncodedPixels { count, color: input[3] }, 4))
        } else {
            None
        }
    }
}

/// Decodes the whole of `input` into its runs. Fails where `input` does not
/// end with the last byte of a run.
pub fn parse_run_length_encoded_pixels(input: &[u8]) -> (result: Option<Vec<RlEncodedPixels>>)
    ensures
        match result {
            Some(runs) => spec_decode_runs(input@) == Some(runs@),
            None => spec_decode_runs(input@) is None,
        },
{
    let len = input.len();
    let mut runs: Vec<RlEncodedPixels> = Vec::new();
    let mut pos: usize = 0;
    proof {
        assert(input@.skip(0) =~= input@);
        lemma_decode_runs_prepend(Seq::empty(), input@);
    }
    while pos < len
        invariant
            pos <= len,
            len == input@.len(),
            spec_decode_runs(input@) == prepend_runs(
                runs@,
                spec_decode_runs(input@.skip(pos as int)),
            ),
        decreases len - pos,
    {
        let rest = &input[pos..len];
        assert(rest@ =~= input@.skip(pos as int));
        match parse_single_encoded_pixel(rest) {
            None => {
                return None;
            },
            Some((run, used)) => {
                proof {
                    let tail = input@.skip(pos as int);
                    assert(tail.skip(used as int) =~= input@.skip(pos + used));
                    match spec_decode_runs(tail.skip(used as int)) {
                        Some(after) => {
                            assert(runs@ + (seq![run] + after) =~= runs@.push(run) + after);
                        },
                        None => {},
                    }
                }
                runs.push(run);
                pos = pos + used;
            },
        }
    }
    proof {
        assert(runs@ + Seq::<RlEncodedPixels>::empty() =~= runs@);
    }
    Some(runs)
}

/// `rest` with `front` put before it, where there is a `rest`.
pub open spec fn prepend_runs(
    front: Seq<RlEncodedPixels>,
    rest: Option<Seq<RlEncodedPixels>>,
) -> Option<Seq<RlEncodedPixels>> {
    match rest {
        Some(r) => Some(front + r),
        None => None,
    }
}

/// The total of the first `n` runs is the total of the first `n - 1` plus the
/// length of run `n - 1`.
pub proof fn lemma_total_run_length_prefix(runs: Seq<RlEncodedPixels>, n: int)
    requires
        0 < n <= runs.len(),
    ensures
        total_run_length(runs.take(n)) == total_run_length(runs.take(n - 1)) + runs[n
            - 1].count as nat,
{
    assert(runs.take(n).drop_last() =~= runs.take(n - 1));
}

/// A prefix of the runs stands for no more pixels than all of them.
pub proof fn lemma_total_run_length_monotone(runs: Seq<RlEncodedPixels>, n: int)
    requires
        0 <= n <= runs.len(),
    ensures
        total_run_length(runs.take(n)) <= total_run_length(runs),
    decreases runs.len() - n,
{
    if n == runs.len() {
        assert(runs.take(n) =~= runs);
    } else {
        lemma_total_run_length_prefix(runs, n + 1);
        lemma_total_run_length_monotone(runs, n + 1);
    }
}

proof fn lemma_decode_runs_prepend(front: Seq<RlEncodedPixels>, s: Seq<u8>)
    requires
        front.len() == 0,
    ensures
        prepend_runs(front, spec_decode_runs(s)) == spec_decode_runs(s),
{
    match spec_decode_runs(s) {
        Some(r) => {
            assert(front + r =~= r);
        },
        None => {},
    }
}

} // verus!
