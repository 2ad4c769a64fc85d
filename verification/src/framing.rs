//! Cutting a signal into overlapping frames and adding frames back together.
use vstd::prelude::*;

verus! {

/// Number of frames of `frame_size` samples that fit into a signal of
/// `signal_len` samples when consecutive frames start `hop` samples apart.
/// A trailing window that does not fit entirely is not counted.
pub open spec fn frame_count(signal_len: int, frame_size: int, hop: int) -> int
    recommends
        0 <= frame_size <= signal_len,
        hop > 0,
{
    (signal_len - frame_size) / hop + 1
}

/// The `index`-th frame of `signal`: `frame_size` consecutive samples
/// starting at `index * hop`.
pub open spec fn frame_at<T>(signal: Seq<T>, frame_size: int, hop: int, index: int) -> Seq<T>
    recommends
        0 <= index < frame_count(signal.len() as int, frame_size, hop),
{
    signal.subrange(index * hop, index * hop + frame_size)
}

/// The frames as sequences of samples.
pub open spec fn frame_views<T>(frames: Seq<Vec<T>>) -> Seq<Seq<T>> {
    Seq::new(frames.len(), |i: int| frames[i]@)
}

/// `frames` are the frames that `signal` is cut into: as many as
/// `frame_count` says, each one the stretch of signal given by `frame_at`.
pub open spec fn is_framing<T>(
    signal: Seq<T>,
    frame_size: int,
    hop: int,
    frames: Seq<Seq<T>>,
) -> bool {
    &&& frames.len() == frame_count(signal.len() as int, frame_size, hop)
    &&& forall|i: int|
        0 <= i < frames.len() ==> #[trigger] frames[i] == frame_at(signal, frame_size, hop, i)
}

/// The last frame counted by `frame_count` still lies inside the signal.
pub proof fn lemma_frame_in_bounds(signal_len: int, frame_size: int, hop: int, index: int)
    requires
        0 <= frame_size <= signal_len,
        hop > 0,
        0 <= index < frame_count(signal_len, frame_size, hop),
    ensures
        0 <= index * hop,
        index * hop + frame_size <= signal_len,
{
    let span = signal_len - frame_size;
    assert(index * hop <= (span / hop) * hop) by (nonlinear_arith)
        requires
            0 <= index <= span / hop,
            hop > 0,
    ;
    assert((span / hop) * hop <= span) by (nonlinear_arith)
        requires
            span >= 0,
            hop > 0,
    ;
    assert(0 <= index * hop) by (nonlinear_arith)
        requires
            0 <= index,
            hop > 0,
    ;
}

/// Cuts `signal` into frames of `frame_size` samples whose starts are
/// `hop_a` samples apart.  Frames overlap when `hop_a < frame_size`; samples
/// after the last complete frame are dropped.
pub fn frame<T: Copy>(signal: &[T], frame_size: usize, hop_a: usize) -> (frames: Vec<Vec<T>>)
    requires
        frame_size <= signal@.len(),
        hop_a > 0,
        frame_count(signal@.len() as int, frame_size as int, hop_a as int) <= usize::MAX,
    ensures
        is_framing(signal@, frame_size as int, hop_a as int, frame_views(frames@)),
        frames@.len() == frame_count(signal@.len() as int, frame_size as int, hop_a as int),
        uniform(frame_views(frames@), frame_size as int),
{
    let len: usize = signal.len();
    let nb_frames: usize = (len - frame_size) / hop_a + 1;
    let mut frames: Vec<Vec<T>> = Vec::with_capacity(nb_frames);
    let mut i: usize = 0;
    while i < nb_frames
        invariant
            len == signal@.len(),
            frame_size <= len,
            hop_a > 0,
            nb_frames == frame_count(signal@.len() as int, frame_size as int, hop_a as int),
            i <= nb_frames,
            frames@.len() == i,
            forall|k: int|
                0 <= k < i ==> (#[trigger] frames@[k])@ == frame_at(
                    signal@,
                    frame_size as int,
                    hop_a as int,
                    k,
                ),
        decreases nb_frames - i,
    {
        assert(i * hop_a + frame_size <= signal@.len()) by {
            lemma_frame_in_bounds(
                signal@.len() as int,
                frame_size as int,
                hop_a as int,
                i as int,
            );
        }
        let start: usize = i * hop_a;
        let mut current: Vec<T> = Vec::with_capacity(frame_size);
        let mut j: usize = 0;
        while j < frame_size
            invariant
                j <= frame_size,
                len == signal@.len(),
                start + frame_size <= len,
                current@ == signal@.subrange(start as int, start + j),
            decreases frame_size - j,
        {
            current.push(signal[start + j]);
            j = j + 1;
        }
        frames.push(current);
        i = i + 1;
    }
    proof {
        let views = frame_views(frames@);
        assert forall|k: int| 0 <= k < views.len() implies #[trigger] views[k] == frame_at(
            signal@,
            frame_size as int,
            hop_a as int,
            k,
        ) && views[k].len() == frame_size by {
            lemma_frame_in_bounds(signal@.len() as int, frame_size as int, hop_a as int, k);
        }
    }
    frames
}

/// Every frame holds `frame_len` samples.
pub open spec fn uniform<T>(frames: Seq<Seq<T>>, frame_len: int) -> bool {
    forall|i: int| 0 <= i < frames.len() ==> (#[trigger] frames[i]).len() == frame_len
}

/// Length of the signal that `frame_count` frames of `frame_len` samples
/// make when each frame starts `hop` samples after the one before.
pub open spec fn overlap_add_len(frame_count: int, frame_len: int, hop: int) -> int
    recommends
        frame_count >= 1,
{
    frame_len + (frame_count - 1) * hop
}

/// The samples that the first `upto` frames place on position `p` of the
/// output, in the order of the frames.  Frame `i` covers the positions
/// `i * hop .. i * hop + frame_len`.
pub open spec fn contributions<T>(frames: Seq<Seq<T>>, hop: int, p: int, upto: int) -> Seq<T>
    decreases upto,
{
    if upto <= 0 {
        Seq::empty()
    } else {
        let before = contributions(frames, hop, p, upto - 1);
        let j = p - (upto - 1) * hop;
        if 0 <= j < frames[upto - 1].len() {
            before.push(frames[upto - 1][j])
        } else {
            before
        }
    }
}

/// `sums` lists what adding `items` one after the other onto `zero` with
/// `combine` gave: `zero` first, then the result after each item.
pub open spec fn is_running_sum<T, F: Fn(T, T) -> T>(
    combine: F,
    zero: T,
    items: Seq<T>,
    sums: Seq<T>,
) -> bool {
    &&& sums.len() == items.len() + 1
    &&& sums[0] == zero
    &&& forall|k: int|
        1 <= k <= items.len() ==> call_ensures(
            combine,
            (sums[k - 1], items[k - 1]),
            #[trigger] sums[k],
        )
}

/// `value` is a result of adding `items` one after the other onto `zero`
/// with `combine`.
pub open spec fn folds_to<T, F: Fn(T, T) -> T>(combine: F, zero: T, items: Seq<T>, value: T) -> bool {
    exists|sums: Seq<T>| #[trigger] is_running_sum(combine, zero, items, sums) && sums.last() == value
}

/// `signal` is an overlap-add of `frames` at hop `hop`: it is as long as
/// `overlap_add_len` says, and each of its samples is a result of adding,
/// with `combine`, what the frames place there onto `zero`.
pub open spec fn is_overlap_add<T, F: Fn(T, T) -> T>(
    frames: Seq<Seq<T>>,
    hop: int,
    zero: T,
    combine: F,
    signal: Seq<T>,
) -> bool {
    &&& signal.len() == overlap_add_len(frames.len() as int, frames[0].len() as int, hop)
    &&& forall|p: int|
        0 <= p < signal.len() ==> folds_to(
            combine,
            zero,
            contributions(frames, hop, p, frames.len() as int),
            #[trigger] signal[p],
        )
}

/// The result of adding `items` one after the other onto `zero` with the
/// addition `plus`.
pub open spec fn fold_sum<T>(plus: spec_fn(T, T) -> T, zero: T, items: Seq<T>) -> T
    decreases items.len(),
{
    if items.len() == 0 {
        zero
    } else {
        plus(fold_sum(plus, zero, items.drop_last()), items.last())
    }
}

/// Adds frames back into one signal.  Frame `i` is laid down `i * hops`
/// samples into the output and added, with `combine`, onto what the frames
/// before it left there; positions that no frame covers hold `zero`.
pub fn overlap_add<T: Copy, F: Fn(T, T) -> T>(frames: &[Vec<T>], hops: usize, zero: T, combine: F) -> (signal:
    Vec<T>)
    requires
        frames@.len() > 0,
        uniform(frame_views(frames@), frames@[0]@.len() as int),
        overlap_add_len(frames@.len() as int, frames@[0]@.len() as int, hops as int) <= usize::MAX,
        forall|a: T, b: T| #[trigger] call_requires(combine, (a, b)),
    ensures
        is_overlap_add(frame_views(frames@), hops as int, zero, combine, signal@),
        signal@.len() == overlap_add_len(
            frames@.len() as int,
            frames@[0]@.len() as int,
            hops as int,
        ),
{
    let count: usize = frames.len();
    let flen: usize = frames[0].len();
    let ghost views = frame_views(frames@);
    assert((count - 1) * hops >= 0) by (nonlinear_arith)
        requires
            count >= 1,
            hops >= 0,
    ;
    let total: usize = flen + (count - 1) * hops;
    let mut signal: Vec<T> = Vec::with_capacity(total);
    let mut filled: usize = 0;
    while filled < total
        invariant
            filled <= total,
            signal@.len() == filled,
            forall|p: int| 0 <= p < filled ==> #[trigger] signal@[p] == zero,
        decreases total - filled,
    {
        signal.push(zero);
        filled = filled + 1;
    }
    proof {
        assert forall|p: int| 0 <= p < total implies folds_to(
            combine,
            zero,
            contributions(views, hops as int, p, 0),
            #[trigger] signal@[p],
        ) by {
            assert(is_running_sum(combine, zero, Seq::<T>::empty(), seq![zero]));
        }
    }
    let mut i: usize = 0;
    while i < count
        invariant
            count == frames@.len(),
            count >= 1,
            views == frame_views(frames@),
            uniform(views, flen as int),
            total == overlap_add_len(count as int, flen as int, hops as int),
            i <= count,
            signal@.len() == total,
            forall|a: T, b: T| #[trigger] call_requires(combine, (a, b)),
            forall|p: int|
                0 <= p < total ==> folds_to(
                    combine,
                    zero,
                    contributions(views, hops as int, p, i as int),
                    #[trigger] signal@[p],
                ),
        decreases count - i,
    {
        assert(i * hops + flen <= total) by (nonlinear_arith)
            requires
                total == flen + (count - 1) * hops,
                i <= count - 1,
                hops >= 0,
        ;
        assert(i * hops >= 0) by (nonlinear_arith)
            requires
                i >= 0,
                hops >= 0,
        ;
        let start: usize = i * hops;
        let mut j: usize = 0;
        while j < flen
            invariant
                count == frames@.len(),
                views == frame_views(frames@),
                views[i as int].len() == flen,
                i < count,
                start == i * hops,
                start + flen <= total,
                j <= flen,
                signal@.len() == total,
                forall|a: T, b: T| #[trigger] call_requires(combine, (a, b)),
                forall|p: int|
                    0 <= p < total ==> folds_to(
                        combine,
                        zero,
                        contributions(
                            views,
                            hops as int,
                            p,
                            if start <= p < start + j {
                                i + 1
                            } else {
                                i as int
                            },
                        ),
                        #[trigger] signal@[p],
                    ),
            decreases flen - j,
        {
            let at: usize = start + j;
            let ghost items = contributions(views, hops as int, at as int, i as int);
            let sum: T = signal[at];
            let sample: T = frames[i][j];
            let value: T = combine(sum, sample);
            signal[at] = value;
            proof {
                let longer = contributions(views, hops as int, at as int, i + 1);
                let sums = choose|sums: Seq<T>|
                    #[trigger] is_running_sum(combine, zero, items, sums) && sums.last() == sum;
                assert(is_running_sum(combine, zero, longer, sums.push(value)));
            }
            j = j + 1;
        }
        proof {
            assert forall|p: int| 0 <= p < total implies folds_to(
                combine,
                zero,
                contributions(views, hops as int, p, i + 1),
                #[trigger] signal@[p],
            ) by {
                if !(start <= p < start + flen) {
                    assert(contributions(views, hops as int, p, i + 1) == contributions(
                        views,
                        hops as int,
                        p,
                        i as int,
                    ));
                }
            }
        }
        i = i + 1;
    }
    signal
}

/// Where `combine` is an exact addition `plus`, the result of adding `items`
/// onto `zero` is their sum under `plus`.
pub proof fn lemma_fold_of_exact_addition<T, F: Fn(T, T) -> T>(
    combine: F,
    plus: spec_fn(T, T) -> T,
    zero: T,
    items: Seq<T>,
    value: T,
)
    requires
        folds_to(combine, zero, items, value),
        forall|a: T, b: T, c: T| #[trigger] call_ensures(combine, (a, b), c) ==> c == plus(a, b),
    ensures
        value == fold_sum(plus, zero, items),
{
    let sums = choose|sums: Seq<T>|
        #[trigger] is_running_sum(combine, zero, items, sums) && sums.last() == value;
    lemma_running_sum_of_exact_addition(combine, plus, zero, items, sums, items.len() as int);
    assert(items.take(items.len() as int) =~= items);
}

proof fn lemma_running_sum_of_exact_addition<T, F: Fn(T, T) -> T>(
    combine: F,
    plus: spec_fn(T, T) -> T,
    zero: T,
    items: Seq<T>,
    sums: Seq<T>,
    k: int,
)
    requires
        is_running_sum(combine, zero, items, sums),
        forall|a: T, b: T, c: T| #[trigger] call_ensures(combine, (a, b), c) ==> c == plus(a, b),
        0 <= k <= items.len(),
    ensures
        sums[k] == fold_sum(plus, zero, items.take(k)),
    decreases k,
{
    if k > 0 {
        lemma_running_sum_of_exact_addition(combine, plus, zero, items, sums, k - 1);
        assert(items.take(k).drop_last() =~= items.take(k - 1));
    }
}

/// Addition of whole numbers.
pub open spec fn whole_sum() -> spec_fn(int, int) -> int {
    |a: int, b: int| a + b
}

/// Sample `p` of the overlap-add of `frames` at hop `hop`, for samples that
/// are whole numbers added exactly.
pub open spec fn overlap_add_at(frames: Seq<Seq<int>>, hop: int, p: int) -> int {
    fold_sum(whole_sum(), 0, contributions(frames, hop, p, frames.len() as int))
}

/// The frames `alpha * f[i] + beta * g[i]`, sample by sample.
pub open spec fn blend(f: Seq<Seq<int>>, g: Seq<Seq<int>>, alpha: int, beta: int) -> Seq<Seq<int>> {
    Seq::new(f.len(), |i: int| Seq::new(f[i].len(), |j: int| alpha * f[i][j] + beta * g[i][j]))
}

/// Overlap-add is linear: adding up the frames `alpha * f[i] + beta * g[i]`
/// gives `alpha` times the overlap-add of `f` plus `beta` times that of `g`,
/// at every position and for every hop.
pub proof fn lemma_overlap_add_is_linear(
    f: Seq<Seq<int>>,
    g: Seq<Seq<int>>,
    alpha: int,
    beta: int,
    hop: int,
    p: int,
)
    requires
        f.len() == g.len(),
        forall|i: int| 0 <= i < f.len() ==> (#[trigger] f[i]).len() == g[i].len(),
    ensures
        overlap_add_at(blend(f, g, alpha, beta), hop, p) == alpha * overlap_add_at(f, hop, p) + beta
            * overlap_add_at(g, hop, p),
{
    lemma_partial_overlap_add_is_linear(f, g, alpha, beta, hop, p, f.len() as int);
}

proof fn lemma_partial_overlap_add_is_linear(
    f: Seq<Seq<int>>,
    g: Seq<Seq<int>>,
    alpha: int,
    beta: int,
    hop: int,
    p: int,
    upto: int,
)
    requires
        f.len() == g.len(),
        forall|i: int| 0 <= i < f.len() ==> (#[trigger] f[i]).len() == g[i].len(),
        0 <= upto <= f.len(),
    ensures
        fold_sum(whole_sum(), 0, contributions(blend(f, g, alpha, beta), hop, p, upto)) == alpha
            * fold_sum(whole_sum(), 0, contributions(f, hop, p, upto)) + beta * fold_sum(
            whole_sum(),
            0,
            contributions(g, hop, p, upto),
        ),
    decreases upto,
{
    let h = blend(f, g, alpha, beta);
    if upto > 0 {
        lemma_partial_overlap_add_is_linear(f, g, alpha, beta, hop, p, upto - 1);
        let i = upto - 1;
        let j = p - i * hop;
        let hs = contributions(h, hop, p, i);
        let fs = contributions(f, hop, p, i);
        let gs = contributions(g, hop, p, i);
        if 0 <= j < f[i].len() {
            assert(hs.push(h[i][j]).drop_last() =~= hs);
            assert(fs.push(f[i][j]).drop_last() =~= fs);
            assert(gs.push(g[i][j]).drop_last() =~= gs);
            let sh = fold_sum(whole_sum(), 0, hs);
            let sf = fold_sum(whole_sum(), 0, fs);
            let sg = fold_sum(whole_sum(), 0, gs);
            assert(sh + (alpha * f[i][j] + beta * g[i][j]) == alpha * (sf + f[i][j]) + beta * (sg
                + g[i][j])) by (nonlinear_arith)
                requires
                    sh == alpha * sf + beta * sg,
            ;
        }
    } else {
        assert(alpha * 0 + beta * 0 == 0) by (nonlinear_arith);
    }
}

/// A framing holds exactly `(L - F) / H + 1` frames of `F` samples each,
/// where `L` is the length of the signal, `F` the frame size and `H` the hop.
pub proof fn lemma_framing_count<T>(signal: Seq<T>, frame_size: int, hop: int, frames: Seq<Seq<T>>)
    requires
        0 <= frame_size <= signal.len(),
        hop >= 1,
        is_framing(signal, frame_size, hop, frames),
    ensures
        frames.len() == (signal.len() - frame_size) / hop + 1,
        uniform(frames, frame_size),
{
    assert forall|i: int| 0 <= i < frames.len() implies (#[trigger] frames[i]).len()
        == frame_size by {
        lemma_frame_in_bounds(signal.len() as int, frame_size, hop, i);
    }
}

/// The overlap-add of `M` frames of `F` samples at hop `h` holds
/// `F + (M - 1) * h` samples.
pub proof fn lemma_overlap_add_length<T, F: Fn(T, T) -> T>(
    frames: Seq<Seq<T>>,
    frame_len: int,
    hop: int,
    zero: T,
    combine: F,
    signal: Seq<T>,
)
    requires
        frames.len() >= 1,
        uniform(frames, frame_len),
        is_overlap_add(frames, hop, zero, combine, signal),
    ensures
        signal.len() == frame_len + (frames.len() - 1) * hop,
{
    assert(frames[0].len() == frame_len);
}

/// The samples as whole numbers.
pub open spec fn whole(items: Seq<i64>) -> Seq<int> {
    Seq::new(items.len(), |k: int| items[k] as int)
}

/// The frames with their samples as whole numbers.
pub open spec fn whole_frames(frames: Seq<Seq<i64>>) -> Seq<Seq<int>> {
    Seq::new(frames.len(), |i: int| whole(frames[i]))
}

/// `combine` gives the sum of its two arguments wherever that sum is a
/// value of the sample type.
pub open spec fn adds_where_it_fits<F: Fn(i64, i64) -> i64>(combine: F) -> bool {
    forall|a: i64, b: i64, c: i64|
        #[trigger] call_ensures(combine, (a, b), c) && i64::MIN <= a + b <= i64::MAX ==> c == a
            + b
}

/// Every sum met while `items` are added up one after the other is a value
/// of the sample type.
pub open spec fn sums_fit(items: Seq<int>) -> bool {
    forall|k: int|
        0 <= k <= items.len() ==> i64::MIN <= #[trigger] fold_sum(whole_sum(), 0, items.take(k))
            <= i64::MAX
}

proof fn lemma_running_sum_is_whole_sum<F: Fn(i64, i64) -> i64>(
    combine: F,
    items: Seq<i64>,
    sums: Seq<i64>,
    k: int,
)
    requires
        is_running_sum(combine, 0i64, items, sums),
        adds_where_it_fits(combine),
        sums_fit(whole(items)),
        0 <= k <= items.len(),
    ensures
        sums[k] == fold_sum(whole_sum(), 0, whole(items).take(k)),
    decreases k,
{
    if k > 0 {
        lemma_running_sum_is_whole_sum(combine, items, sums, k - 1);
        let now = whole(items).take(k);
        assert(now.drop_last() =~= whole(items).take(k - 1));
        assert(now.last() == items[k - 1]);
        assert(call_ensures(combine, (sums[k - 1], items[k - 1]), sums[k]));
        assert(fold_sum(whole_sum(), 0, now) == sums[k - 1] + items[k - 1]);
    }
}

proof fn lemma_whole_contributions(frames: Seq<Seq<i64>>, hop: int, p: int, upto: int)
    requires
        0 <= upto <= frames.len(),
    ensures
        whole(contributions(frames, hop, p, upto)) == contributions(
            whole_frames(frames),
            hop,
            p,
            upto,
        ),
    decreases upto,
{
    if upto > 0 {
        lemma_whole_contributions(frames, hop, p, upto - 1);
        let j = p - (upto - 1) * hop;
        assert(whole_frames(frames)[upto - 1] == whole(frames[upto - 1]));
        if 0 <= j < frames[upto - 1].len() {
            assert(whole(contributions(frames, hop, p, upto - 1).push(frames[upto - 1][j]))
                =~= whole(contributions(frames, hop, p, upto - 1)).push(
                frames[upto - 1][j] as int,
            ));
        }
    } else {
        assert(whole(contributions(frames, hop, p, upto)) =~= contributions(
            whole_frames(frames),
            hop,
            p,
            upto,
        ));
    }
}

/// What `overlap_add` returns for frames of whole numbers, with a `combine`
/// that adds, is the sum of what the frames place on each position, as long
/// as the sums along the way are values of the sample type.
pub proof fn lemma_overlap_add_gives_the_sum<F: Fn(i64, i64) -> i64>(
    frames: Seq<Seq<i64>>,
    hop: int,
    combine: F,
    signal: Seq<i64>,
    p: int,
)
    requires
        is_overlap_add(frames, hop, 0i64, combine, signal),
        adds_where_it_fits(combine),
        0 <= p < signal.len(),
        sums_fit(contributions(whole_frames(frames), hop, p, frames.len() as int)),
    ensures
        signal[p] == overlap_add_at(whole_frames(frames), hop, p),
{
    let items = contributions(frames, hop, p, frames.len() as int);
    lemma_whole_contributions(frames, hop, p, frames.len() as int);
    assert(folds_to(combine, 0i64, items, signal[p]));
    let sums = choose|sums: Seq<i64>|
        #[trigger] is_running_sum(combine, 0i64, items, sums) && sums.last() == signal[p];
    lemma_running_sum_is_whole_sum(combine, items, sums, items.len() as int);
    assert(whole(items).take(items.len() as int) =~= whole(items));
}

/// Overlap-add as it is computed is linear: where the frames `c` are
/// `alpha * f + beta * g`, sample by sample, what `overlap_add` returns for
/// `c` is `alpha` times what it returns for `f` plus `beta` times what it
/// returns for `g`, for a `combine` that adds and as long as the sums along
/// the way are values of the sample type.
pub proof fn lemma_overlap_add_calls_are_linear<F: Fn(i64, i64) -> i64>(
    f: Seq<Seq<i64>>,
    g: Seq<Seq<i64>>,
    c: Seq<Seq<i64>>,
    alpha: int,
    beta: int,
    hop: int,
    combine: F,
    of: Seq<i64>,
    og: Seq<i64>,
    oc: Seq<i64>,
    p: int,
)
    requires
        f.len() == g.len() == c.len(),
        forall|i: int|
            0 <= i < f.len() ==> (#[trigger] f[i]).len() == g[i].len() && f[i].len() == c[i].len(),
        forall|i: int, j: int|
            0 <= i < f.len() && 0 <= j < f[i].len() ==> (#[trigger] c[i][j]) == alpha * f[i][j]
                + beta * g[i][j],
        is_overlap_add(f, hop, 0i64, combine, of),
        is_overlap_add(g, hop, 0i64, combine, og),
        is_overlap_add(c, hop, 0i64, combine, oc),
        adds_where_it_fits(combine),
        0 <= p < oc.len(),
        f.len() >= 1,
        sums_fit(contributions(whole_frames(f), hop, p, f.len() as int)),
        sums_fit(contributions(whole_frames(g), hop, p, g.len() as int)),
        sums_fit(contributions(whole_frames(c), hop, p, c.len() as int)),
    ensures
        oc[p] == alpha * of[p] + beta * og[p],
{
    assert(f[0].len() == g[0].len() && f[0].len() == c[0].len());
    lemma_overlap_add_gives_the_sum(f, hop, combine, of, p);
    lemma_overlap_add_gives_the_sum(g, hop, combine, og, p);
    lemma_overlap_add_gives_the_sum(c, hop, combine, oc, p);
    let wf = whole_frames(f);
    let wg = whole_frames(g);
    let wc = whole_frames(c);
    let mixed = blend(wf, wg, alpha, beta);
    assert(wc.len() == mixed.len());
    assert forall|i: int| 0 <= i < wc.len() implies #[trigger] wc[i] == mixed[i] by {
        assert(wf[i] == whole(f[i]) && wg[i] == whole(g[i]) && wc[i] == whole(c[i]));
        assert(wc[i].len() == mixed[i].len());
        assert forall|j: int| 0 <= j < wc[i].len() implies wc[i][j] == mixed[i][j] by {
            assert(c[i][j] == alpha * f[i][j] + beta * g[i][j]);
        }
        assert(wc[i] =~= mixed[i]);
    }
    assert(wc =~= mixed);
    assert forall|i: int| 0 <= i < wf.len() implies (#[trigger] wf[i]).len() == wg[i].len() by {
        assert(wf[i] == whole(f[i]) && wg[i] == whole(g[i]));
    }
    lemma_overlap_add_is_linear(wf, wg, alpha, beta, hop, p);
}

} // verus!
