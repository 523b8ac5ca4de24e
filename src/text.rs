//! The list form of a bitmap: its maximal runs of set indices, written
//! `"a-b"` for a run, `"a"` for a single index and `"a-"` for a run that goes
//! on without end, joined by commas.

use vstd::prelude::*;

use crate::bitmap::Bitmap;

verus! {

/// A run of set indices: its first index, and its last one (`None` when the
/// run goes on without end).
pub type IndexRun = (usize, Option<usize>);

/// Whether index `j` lies in run `r`.
pub open spec fn in_run(r: IndexRun, j: nat) -> bool {
    r.0 <= j && (r.1.is_none() || j <= r.1.unwrap())
}

/// `r` is a maximal run of `s`: all its indices are in `s`, and neither the
/// index before it nor the one after it is.
pub open spec fn is_maximal_run(s: Set<nat>, r: IndexRun) -> bool {
    &&& (r.0 == 0 || !s.contains((r.0 - 1) as nat))
    &&& match r.1 {
        Some(b) => r.0 <= b && !s.contains((b + 1) as nat) && forall|j: nat|
            r.0 <= j <= b ==> #[trigger] s.contains(j),
        None => forall|j: nat| r.0 <= j ==> #[trigger] s.contains(j),
    }
}

/// `runs` lists the maximal runs of `s` in ascending order. Only the last
/// run may go on without end, and every index of `s` lies in a run. Such a
/// list is unique.
pub open spec fn is_run_list(s: Set<nat>, runs: Seq<IndexRun>) -> bool {
    &&& forall|k: int| 0 <= k < runs.len() ==> is_maximal_run(s, #[trigger] runs[k])
    &&& forall|k: int|
        0 <= k < runs.len() - 1 ==> (#[trigger] runs[k]).1.is_some() && runs[k].1.unwrap() + 1
            < runs[k + 1].0
    &&& forall|j: nat| #[trigger] s.contains(j) ==> exists|k: int| 0 <= k < runs.len() && in_run(runs[k], j)
}

/// In a run list, the runs start at increasing indices.
proof fn lemma_starts_increasing(s: Set<nat>, r: Seq<IndexRun>, i: int, j: int)
    requires
        is_run_list(s, r),
        0 <= i < j < r.len(),
    ensures
        r[i].0 < r[j].0,
    decreases j - i,
{
    assert(is_maximal_run(s, r[i]));
    assert(r[i].1.is_some() && r[i].1.unwrap() + 1 < r[i + 1].0);
    if j > i + 1 {
        lemma_starts_increasing(s, r, i + 1, j);
    }
}

/// Every run of one run list of `s` starts where a run of another one does.
proof fn lemma_start_found(s: Set<nat>, a: Seq<IndexRun>, b: Seq<IndexRun>, k: int)
    requires
        is_run_list(s, a),
        is_run_list(s, b),
        0 <= k < a.len(),
    ensures
        exists|m: int| 0 <= m < b.len() && b[m].0 == a[k].0,
{
    let x = a[k].0 as nat;
    assert(is_maximal_run(s, a[k]));
    assert(s.contains(x));
    let m = choose|m: int| 0 <= m < b.len() && in_run(b[m], x);
    assert(is_maximal_run(s, b[m]));
    if b[m].0 < x {
        assert(s.contains((x - 1) as nat));
    }
    assert(b[m].0 == a[k].0);
}

/// Two run lists of `s` have their `k`-th runs start at the same index.
proof fn lemma_starts_agree(s: Set<nat>, a: Seq<IndexRun>, b: Seq<IndexRun>, k: int)
    requires
        is_run_list(s, a),
        is_run_list(s, b),
        0 <= k < a.len(),
        k < b.len(),
    ensures
        a[k].0 == b[k].0,
    decreases k,
{
    lemma_start_found(s, a, b, k);
    lemma_start_found(s, b, a, k);
    let m = choose|m: int| 0 <= m < b.len() && b[m].0 == a[k].0;
    let n = choose|n: int| 0 <= n < a.len() && a[n].0 == b[k].0;
    if m < k {
        lemma_starts_agree(s, a, b, m);
        lemma_starts_increasing(s, a, m, k);
    } else if m > k {
        lemma_starts_increasing(s, b, k, m);
        if n < k {
            lemma_starts_agree(s, a, b, n);
            lemma_starts_increasing(s, b, n, k);
        } else if n > k {
            lemma_starts_increasing(s, a, k, n);
        }
    }
}

/// A set has only one run list: the list form of a bitmap is unique.
pub proof fn lemma_run_list_unique(s: Set<nat>, a: Seq<IndexRun>, b: Seq<IndexRun>)
    requires
        is_run_list(s, a),
        is_run_list(s, b),
    ensures
        a == b,
{
    if a.len() < b.len() {
        let k = a.len() as int;
        lemma_start_found(s, b, a, k);
        let m = choose|m: int| 0 <= m < a.len() && a[m].0 == b[k].0;
        lemma_starts_agree(s, a, b, m);
        lemma_starts_increasing(s, b, m, k);
    } else if b.len() < a.len() {
        let k = b.len() as int;
        lemma_start_found(s, a, b, k);
        let m = choose|m: int| 0 <= m < b.len() && b[m].0 == a[k].0;
        lemma_starts_agree(s, a, b, m);
        lemma_starts_increasing(s, a, m, k);
    } else {
        assert forall|k: int| 0 <= k < a.len() implies a[k] == b[k] by {
            lemma_starts_agree(s, a, b, k);
            assert(is_maximal_run(s, a[k]));
            assert(is_maximal_run(s, b[k]));
            let x = a[k].0 as nat;
            match (a[k].1, b[k].1) {
                (Some(p), Some(q)) => {
                    if p < q {
                        assert(s.contains((p + 1) as nat));
                    } else if q < p {
                        assert(s.contains((q + 1) as nat));
                    }
                },
                (Some(p), None) => {
                    assert(s.contains((p + 1) as nat));
                },
                (None, Some(q)) => {
                    assert(s.contains((q + 1) as nat));
                },
                (None, None) => {},
            }
        }
        assert(a =~= b);
    }
}

/// The text of a run list of `s` is the text of every run list of `s`.
proof fn lemma_text_determined(s: Set<nat>, runs: Seq<IndexRun>)
    requires
        is_run_list(s, runs),
    ensures
        forall|other: Seq<IndexRun>| is_run_list(s, other) ==> runs_text(other) == runs_text(runs),
{
    assert forall|other: Seq<IndexRun>| is_run_list(s, other) implies runs_text(other) == runs_text(
        runs,
    ) by {
        lemma_run_list_unique(s, runs, other);
    }
}

/// The decimal digit for `d`.
pub open spec fn digit_char(d: nat) -> char {
    if d == 0 {
        '0'
    } else if d == 1 {
        '1'
    } else if d == 2 {
        '2'
    } else if d == 3 {
        '3'
    } else if d == 4 {
        '4'
    } else if d == 5 {
        '5'
    } else if d == 6 {
        '6'
    } else if d == 7 {
        '7'
    } else if d == 8 {
        '8'
    } else {
        '9'
    }
}

/// `n` written in decimal, without leading zeros.
pub open spec fn decimal(n: nat) -> Seq<char>
    decreases n,
{
    if n < 10 {
        seq![digit_char(n)]
    } else {
        decimal(n / 10).push(digit_char(n % 10))
    }
}

/// The text of one run.
pub open spec fn run_text(r: IndexRun) -> Seq<char> {
    match r.1 {
        None => decimal(r.0 as nat).push('-'),
        Some(b) => if b == r.0 {
            decimal(r.0 as nat)
        } else {
            decimal(r.0 as nat).push('-') + decimal(b as nat)
        },
    }
}

/// The texts of `runs`, joined by commas.
pub open spec fn runs_text(runs: Seq<IndexRun>) -> Seq<char>
    decreases runs.len(),
{
    if runs.len() == 0 {
        Seq::empty()
    } else if runs.len() == 1 {
        run_text(runs[0])
    } else {
        runs_text(runs.drop_last()).push(',') + run_text(runs.last())
    }
}

/// Relies on `String::push`: appends one character.
#[verifier::external_body]
pub(crate) fn push_char(s: &mut String, c: char)
    ensures
        final(s)@ == old(s)@.push(c),
{
    s.push(c)
}

fn digit(d: usize) -> (c: char)
    requires
        d < 10,
    ensures
        c == digit_char(d as nat),
{
    if d == 0 {
        '0'
    } else if d == 1 {
        '1'
    } else if d == 2 {
        '2'
    } else if d == 3 {
        '3'
    } else if d == 4 {
        '4'
    } else if d == 5 {
        '5'
    } else if d == 6 {
        '6'
    } else if d == 7 {
        '7'
    } else if d == 8 {
        '8'
    } else {
        '9'
    }
}

/// Appends `n` in decimal.
fn push_decimal(out: &mut String, n: usize)
    ensures
        final(out)@ == old(out)@ + decimal(n as nat),
    decreases n,
{
    if n >= 10 {
        push_decimal(out, n / 10);
    }
    push_char(out, digit(n % 10));
    proof {
        if n >= 10 {
            assert(final(out)@ =~= old(out)@ + decimal(n as nat));
        } else {
            assert(final(out)@ =~= old(out)@ + decimal(n as nat));
        }
    }
}

/// Appends the text of run `r`.
fn push_run(out: &mut String, r: IndexRun)
    ensures
        final(out)@ == old(out)@ + run_text(r),
{
    let ghost start = out@;
    push_decimal(out, r.0);
    match r.1 {
        None => {
            push_char(out, '-');
            assert(out@ =~= start + run_text(r));
        },
        Some(b) => {
            if b != r.0 {
                push_char(out, '-');
                push_decimal(out, b);
                assert(out@ =~= start + run_text(r));
            }
        },
    }
}

impl Bitmap {
    /// The maximal runs of set indices, in ascending order.
    pub fn runs(&self) -> (r: Vec<IndexRun>)
        ensures
            is_run_list(self@, r@),
    {
        let ghost s = self@;
        let len = self.runs_prefix_len();
        let mut out: Vec<IndexRun> = Vec::new();
        let mut start: Option<usize> = None;
        let mut k: usize = 0;
        proof {
            self.lemma_tail();
        }
        while k < len
            invariant
                k <= len,
                s == self@,
                len == self.prefix_len(),
                forall|j: nat| j >= len ==> #[trigger] s.contains(j) == self.tail(),
                forall|t: int|
                    0 <= t < out@.len() ==> is_maximal_run(s, #[trigger] out@[t]) && out@[t].1.is_some()
                        && out@[t].1.unwrap() + 1 < k,
                forall|t: int|
                    0 <= t < out@.len() - 1 ==> (#[trigger] out@[t]).1.unwrap() + 1 < out@[t + 1].0,
                start.is_some() ==> {
                    let a = start.unwrap();
                    &&& a < k
                    &&& (a == 0 || !s.contains((a - 1) as nat))
                    &&& forall|j: nat| a <= j < k ==> #[trigger] s.contains(j)
                    &&& out@.len() > 0 ==> out@.last().1.unwrap() + 1 < a
                },
                start.is_none() ==> k == 0 || !s.contains((k - 1) as nat),
                forall|j: nat|
                    j < k && #[trigger] s.contains(j) ==> (exists|t: int|
                        0 <= t < out@.len() && in_run(out@[t], j)) || (start.is_some()
                        && start.unwrap() <= j),
            decreases len - k,
        {
            let set = self.is_set_unchecked(k);
            let ghost before = out@;
            match start {
                None => {
                    if set {
                        start = Some(k);
                    }
                },
                Some(a) => {
                    if !set {
                        out.push((a, Some(k - 1)));
                        start = None;
                        proof {
                            assert forall|j: nat|
                                j < k + 1 && #[trigger] s.contains(j) implies exists|t: int|
                                0 <= t < out@.len() && in_run(out@[t], j) by {
                                if a <= j {
                                    assert(in_run(out@[out@.len() - 1], j));
                                } else {
                                    let t = choose|t: int|
                                        0 <= t < before.len() && in_run(before[t], j);
                                    assert(out@[t] == before[t]);
                                }
                            }
                        }
                    }
                },
            }
            k = k + 1;
        }
        let ghost before = out@;
        if self.tail_is_set() {
            match start {
                Some(a) => out.push((a, None)),
                None => out.push((len, None)),
            }
            proof {
                assert forall|j: nat| #[trigger] s.contains(j) implies exists|t: int|
                    0 <= t < out@.len() && in_run(out@[t], j) by {
                    if j >= len || (start.is_some() && start.unwrap() <= j) {
                        assert(in_run(out@[out@.len() - 1], j));
                    } else {
                        let t = choose|t: int| 0 <= t < before.len() && in_run(before[t], j);
                        assert(out@[t] == before[t]);
                    }
                }
            }
        } else {
            match start {
                Some(a) => {
                    out.push((a, Some(len - 1)));
                    proof {
                        assert forall|j: nat| #[trigger] s.contains(j) implies exists|t: int|
                            0 <= t < out@.len() && in_run(out@[t], j) by {
                            if a <= j {
                                assert(in_run(out@[out@.len() - 1], j));
                            } else {
                                let t = choose|t: int|
                                    0 <= t < before.len() && in_run(before[t], j);
                                assert(out@[t] == before[t]);
                            }
                        }
                    }
                },
                None => {},
            }
        }
        out
    }

    /// The list form: the maximal runs of set indices, each written `"a-b"`,
    /// `"a"` when it holds one index, or `"a-"` when it goes on without end,
    /// joined by commas. The empty bitmap gives the empty string.
    ///
    /// Since a set has a single run list ([`lemma_run_list_unique`]), the
    /// text is determined by the set.
    pub fn to_string(&self) -> (r: String)
        ensures
            exists|runs: Seq<IndexRun>| is_run_list(self@, runs) && r@ == runs_text(runs),
            forall|runs: Seq<IndexRun>| is_run_list(self@, runs) ==> r@ == runs_text(runs),
    {
        let runs = self.runs();
        let mut out = String::new();
        let mut t: usize = 0;
        while t < runs.len()
            invariant
                t <= runs@.len(),
                out@ == runs_text(runs@.take(t as int)),
            decreases runs.len() - t,
        {
            let ghost before = out@;
            if t > 0 {
                push_char(&mut out, ',');
            }
            push_run(&mut out, runs[t]);
            proof {
                assert(runs@.take(t + 1).drop_last() =~= runs@.take(t as int));
                if t == 0 {
                    assert(out@ =~= runs_text(runs@.take(1)));
                }
            }
            t = t + 1;
        }
        proof {
            assert(runs@.take(runs@.len() as int) =~= runs@);
            lemma_text_determined(self@, runs@);
        }
        out
    }
}

} // verus!
