//! The layer stack: one weight matrix, bias row and activation row per layer,
//! with forward evaluation, cost, two gradient estimators and the update
//! step.

use vstd::prelude::*;
use crate::matrix::NNMatrix;
use crate::matrix::is_uniform_mix;
use crate::scalar::Scalar;
use crate::scalar::F_ZERO;
use crate::scalar::F_ONE;
use crate::scalar::F_TWO;
use crate::scalar::add_bits;
use crate::scalar::sub_bits;
use crate::scalar::mul_bits;
use crate::scalar::div_bits;
use crate::scalar::from_uint_bits;
use crate::scalar::sigmoid_bits;
use crate::scalar::scalar_add;
use crate::scalar::scalar_sub;
use crate::scalar::scalar_mul;
use crate::scalar::scalar_div;
use crate::scalar::scalar_of_uint;

verus! {

broadcast use crate::matrix::lemma_mat_dims;

/// The single-precision dot product of the row vector `x` with column `j` of
/// `w` over the first `k` terms, accumulated left to right from zero.
pub open spec fn row_dot_bits(x: Seq<u32>, w: Seq<Seq<u32>>, j: int, k: nat) -> u32
    decreases k,
{
    if k == 0 {
        F_ZERO
    } else {
        add_bits(row_dot_bits(x, w, j, (k - 1) as nat), mul_bits(x[k - 1], w[k - 1][j]))
    }
}

/// One layer's activation row: for each of the `n_out` units, the dot product
/// of the previous activation row with the unit's weight column, plus the
/// unit's bias, passed through the sigmoid.
pub open spec fn layer_row_bits(x: Seq<u32>, w: Seq<Seq<u32>>, b: Seq<u32>, n_out: nat) -> Seq<u32> {
    Seq::new(n_out, |j: int| sigmoid_bits(add_bits(row_dot_bits(x, w, j, x.len()), b[j])))
}

/// The activation row of layer `l` reached from input row `x` through weight
/// matrices `ws` and bias rows `bs`; layer 0 is the input itself.
pub open spec fn act_after_bits(ws: Seq<Seq<Seq<u32>>>, bs: Seq<Seq<u32>>, x: Seq<u32>, l: nat) -> Seq<u32>
    decreases l,
{
    if l == 0 {
        x
    } else {
        let prev = act_after_bits(ws, bs, x, (l - 1) as nat);
        layer_row_bits(prev, ws[l - 1], bs[l - 1], bs[l - 1].len())
    }
}

/// One sample row's squared error folded onto a running total `acc`, column
/// by column: `acc + (expected[0]-actual[0])^2 + ...` over the first `k`
/// columns, each step rounded as single-precision arithmetic rounds it.
pub open spec fn row_cost_bits(acc: u32, expected: Seq<u32>, actual: Seq<u32>, k: nat) -> u32
    decreases k,
{
    if k == 0 {
        acc
    } else {
        let d = sub_bits(expected[k - 1], actual[k - 1]);
        add_bits(row_cost_bits(acc, expected, actual, (k - 1) as nat), mul_bits(d, d))
    }
}

/// The squared error summed over the first `r` sample rows: each row is
/// forward-evaluated from its input columns and scored against its expected
/// output columns.
pub open spec fn cost_acc_bits(
    ws: Seq<Seq<Seq<u32>>>,
    bs: Seq<Seq<u32>>,
    input: Seq<Seq<u32>>,
    output: Seq<Seq<u32>>,
    lc: nat,
    r: nat,
) -> u32
    decreases r,
{
    if r == 0 {
        F_ZERO
    } else {
        let acc = cost_acc_bits(ws, bs, input, output, lc, (r - 1) as nat);
        let actual = act_after_bits(ws, bs, input[r - 1], lc);
        row_cost_bits(acc, output[r - 1], actual, output[r - 1].len())
    }
}

/// The mean squared error over a dataset: the summed error of all `rows`
/// sample rows, divided by `rows`.
pub open spec fn cost_bits(
    ws: Seq<Seq<Seq<u32>>>,
    bs: Seq<Seq<u32>>,
    input: Seq<Seq<u32>>,
    output: Seq<Seq<u32>>,
    lc: nat,
    rows: nat,
) -> u32 {
    div_bits(cost_acc_bits(ws, bs, input, output, lc, rows), from_uint_bits(rows as u64))
}

/// The weight stack `ws` with `eps` added (as single-precision addition) to
/// the one cell (`i`, `r`, `c`).
pub open spec fn perturb_w_bits(ws: Seq<Seq<Seq<u32>>>, i: int, r: int, c: int, eps: u32) -> Seq<Seq<Seq<u32>>> {
    ws.update(i, ws[i].update(r, ws[i][r].update(c, add_bits(ws[i][r][c], eps))))
}

/// The bias stack `bs` with `eps` added (as single-precision addition) to the
/// one cell (`i`, `c`).
pub open spec fn perturb_b_bits(bs: Seq<Seq<u32>>, i: int, c: int, eps: u32) -> Seq<Seq<u32>> {
    bs.update(i, bs[i].update(c, add_bits(bs[i][c], eps)))
}

/// The error signal a unit feeds back: `2 * delta * a * (1 - a)`, computed
/// left to right, where `a` is the unit's sigmoid output and `delta` the
/// accumulated error at that unit.  `a * (1 - a)` is the sigmoid derivative,
/// valid because `a` is already the sigmoid's output.
pub open spec fn bp_term_bits(da: u32, a: u32) -> u32 {
    mul_bits(mul_bits(mul_bits(F_TWO, da), a), sub_bits(F_ONE, a))
}

/// The backward sweep of one unit `j` over the first `k` input units of its
/// layer: weight gradient cell (`k`, `j`) accumulates `t * act_prev[k]`, and
/// the previous layer's delta `k` accumulates `t * w[k][j]`.
pub open spec fn bp_inner_bits(
    gw: Seq<Seq<u32>>,
    ga: Seq<u32>,
    t: u32,
    act_prev: Seq<u32>,
    w: Seq<Seq<u32>>,
    j: int,
    k: nat,
) -> (Seq<Seq<u32>>, Seq<u32>)
    decreases k,
{
    if k == 0 {
        (gw, ga)
    } else {
        let prev = bp_inner_bits(gw, ga, t, act_prev, w, j, (k - 1) as nat);
        let kk = k - 1;
        (
            prev.0.update(kk, prev.0[kk].update(j, add_bits(prev.0[kk][j], mul_bits(t, act_prev[kk])))),
            prev.1.update(kk, add_bits(prev.1[kk], mul_bits(t, w[kk][j]))),
        )
    }
}

/// The backward sweep of one layer over its first `j` output units: each unit
/// adds its term to its bias gradient, then sweeps the input units.
/// Returns the layer's weight gradients, bias gradients, and the previous
/// layer's deltas.
pub open spec fn bp_cols_bits(
    gw: Seq<Seq<u32>>,
    gb: Seq<u32>,
    ga_prev: Seq<u32>,
    ga_l: Seq<u32>,
    act_l: Seq<u32>,
    act_prev: Seq<u32>,
    w: Seq<Seq<u32>>,
    n_prev: nat,
    j: nat,
) -> (Seq<Seq<u32>>, Seq<u32>, Seq<u32>)
    decreases j,
{
    if j == 0 {
        (gw, gb, ga_prev)
    } else {
        let prev = bp_cols_bits(gw, gb, ga_prev, ga_l, act_l, act_prev, w, n_prev, (j - 1) as nat);
        let jj = j - 1;
        let t = bp_term_bits(ga_l[jj], act_l[jj]);
        let gb2 = prev.1.update(jj, add_bits(prev.1[jj], t));
        let swept = bp_inner_bits(prev.0, prev.2, t, act_prev, w, jj, n_prev);
        (swept.0, gb2, swept.1)
    }
}

/// The backward sweep of the first `m` layers, walking from the last layer
/// down.  `gal` holds one delta row per layer; layer `l`'s sweep reads the
/// deltas of layer `l` and accumulates into the gradients of layer `l - 1`
/// and the deltas of layer `l - 1`.
pub open spec fn bp_layers_bits(
    gwl: Seq<Seq<Seq<u32>>>,
    gbl: Seq<Seq<u32>>,
    gal: Seq<Seq<u32>>,
    acts: Seq<Seq<u32>>,
    ws: Seq<Seq<Seq<u32>>>,
    lc: nat,
    m: nat,
) -> (Seq<Seq<Seq<u32>>>, Seq<Seq<u32>>, Seq<Seq<u32>>)
    decreases m,
{
    if m == 0 {
        (gwl, gbl, gal)
    } else {
        let prev = bp_layers_bits(gwl, gbl, gal, acts, ws, lc, (m - 1) as nat);
        let l = lc - m + 1;
        let swept = bp_cols_bits(
            prev.0[l - 1],
            prev.1[l - 1],
            prev.2[l - 1],
            prev.2[l],
            acts[l],
            acts[l - 1],
            ws[l - 1],
            acts[l - 1].len(),
            acts[l].len(),
        );
        (prev.0.update(l - 1, swept.0), prev.1.update(l - 1, swept.1), prev.2.update(l - 1, swept.2))
    }
}

/// One sample's backward pass: forward activations are taken, the delta
/// buffers are zeroed, the output deltas are seeded with
/// `actual - expected`, and every layer is swept from the last down.
pub open spec fn bp_sample_bits(
    gwl: Seq<Seq<Seq<u32>>>,
    gbl: Seq<Seq<u32>>,
    ws: Seq<Seq<Seq<u32>>>,
    bs: Seq<Seq<u32>>,
    x: Seq<u32>,
    y: Seq<u32>,
    lc: nat,
) -> (Seq<Seq<Seq<u32>>>, Seq<Seq<u32>>, Seq<Seq<u32>>) {
    let acts = Seq::new((lc + 1) as nat, |l: int| act_after_bits(ws, bs, x, l as nat));
    let gal0 = Seq::new((lc + 1) as nat, |l: int| Seq::new(acts[l].len(), |j: int| F_ZERO));
    let seeded = gal0.update(lc as int, Seq::new(y.len(), |c: int| sub_bits(acts[lc as int][c], y[c])));
    bp_layers_bits(gwl, gbl, seeded, acts, ws, lc, lc)
}

/// A grid of zeros with the same shape as `v`.
pub open spec fn zero_grid(v: Seq<Seq<u32>>) -> Seq<Seq<u32>> {
    Seq::new(v.len(), |r: int| Seq::new(v[r].len(), |c: int| F_ZERO))
}

/// A stack of zero grids with the same shapes as `v`.
pub open spec fn zero_stack(v: Seq<Seq<Seq<u32>>>) -> Seq<Seq<Seq<u32>>> {
    Seq::new(v.len(), |i: int| zero_grid(v[i]))
}

/// Zeroed delta rows, one per layer: the input width for layer 0, each bias
/// row's width above it.
pub open spec fn zero_acts(ws: Seq<Seq<Seq<u32>>>, bs: Seq<Seq<u32>>, lc: nat) -> Seq<Seq<u32>> {
    Seq::new((lc + 1) as nat, |l: int|
        if l == 0 {
            Seq::new(ws[0].len(), |c: int| F_ZERO)
        } else {
            Seq::new(bs[l - 1].len(), |c: int| F_ZERO)
        })
}

/// The raw (undivided) gradients accumulated over the first `s` sample rows,
/// starting from a zeroed gradient; the third component is the delta buffer
/// the last sample leaves behind.
pub open spec fn bp_samples_bits(
    ws: Seq<Seq<Seq<u32>>>,
    bs: Seq<Seq<u32>>,
    input: Seq<Seq<u32>>,
    output: Seq<Seq<u32>>,
    lc: nat,
    s: nat,
) -> (Seq<Seq<Seq<u32>>>, Seq<Seq<u32>>, Seq<Seq<u32>>)
    decreases s,
{
    if s == 0 {
        (zero_stack(ws), zero_grid(bs), zero_acts(ws, bs, lc))
    } else {
        let prev = bp_samples_bits(ws, bs, input, output, lc, (s - 1) as nat);
        bp_sample_bits(prev.0, prev.1, ws, bs, input[s - 1], output[s - 1], lc)
    }
}

pub struct NNArch {
    /// The number of layers, excluding the input.
    layer_count: usize,

    /// Activation rows; entry 0 is the input buffer, so there is one more
    /// entry than there are layers.
    al: Vec<NNMatrix>,

    /// Weight matrices, one per layer.
    wl: Vec<NNMatrix>,

    /// Bias rows, one per layer.
    bl: Vec<NNMatrix>,
}

impl NNArch {
    pub closed spec fn spec_layer_count(self) -> int {
        self.layer_count as int
    }

    pub closed spec fn spec_act(self, l: int) -> NNMatrix {
        self.al@[l]
    }

    pub closed spec fn spec_weight(self, i: int) -> NNMatrix {
        self.wl@[i]
    }

    pub closed spec fn spec_bias(self, i: int) -> NNMatrix {
        self.bl@[i]
    }

    pub closed spec fn acts_len(self) -> int {
        self.al@.len() as int
    }

    pub closed spec fn weights_len(self) -> int {
        self.wl@.len() as int
    }

    pub closed spec fn biases_len(self) -> int {
        self.bl@.len() as int
    }

    /// The width of layer `l`: how many scalars its activation row holds.
    #[verifier::inline]
    pub open spec fn width(self, l: int) -> int {
        self.spec_act(l).spec_cols()
    }

    /// Shape invariant: matching counts of activation, weight and bias
    /// matrices, single-row activations and biases, and weight matrices
    /// joining each layer's width to the next.
    pub open spec fn wf(self) -> bool {
        &&& 1 <= self.spec_layer_count()
        &&& self.acts_len() == self.spec_layer_count() + 1
        &&& self.weights_len() == self.spec_layer_count()
        &&& self.biases_len() == self.spec_layer_count()
        &&& forall|l: int| 0 <= l <= self.spec_layer_count()
                ==> (#[trigger] self.spec_act(l)).wf() && self.spec_act(l).spec_rows() == 1
        &&& forall|i: int| 0 <= i < self.spec_layer_count()
                ==> (#[trigger] self.spec_weight(i)).wf()
                    && self.spec_weight(i).spec_rows() == self.width(i)
                    && self.spec_weight(i).spec_cols() == self.width(i + 1)
        &&& forall|i: int| 0 <= i < self.spec_layer_count()
                ==> (#[trigger] self.spec_bias(i)).wf()
                    && self.spec_bias(i).spec_rows() == 1
                    && self.spec_bias(i).spec_cols() == self.width(i + 1)
    }

    /// Two stacks share an architecture: same depth, same width at every
    /// layer.
    pub open spec fn same_arch(self, other: NNArch) -> bool {
        &&& self.spec_layer_count() == other.spec_layer_count()
        &&& forall|l: int|
                #![trigger self.spec_act(l).spec_cols()]
                #![trigger other.spec_act(l).spec_cols()]
                0 <= l <= self.spec_layer_count() ==> self.width(l) == other.width(l)
    }

    /// The weight matrices as plain sequences.
    pub open spec fn wseqs(self) -> Seq<Seq<Seq<u32>>> {
        Seq::new(self.spec_layer_count() as nat, |i: int| self.spec_weight(i).mseq())
    }

    /// The bias rows as plain sequences.
    pub open spec fn bseqs(self) -> Seq<Seq<u32>> {
        Seq::new(self.spec_layer_count() as nat, |i: int| self.spec_bias(i).mseq()[0])
    }

    /// The activation row of layer `l`.
    pub open spec fn act_row(self, l: int) -> Seq<u32> {
        self.spec_act(l).mseq()[0]
    }

    /// The number of layers, excluding the input.
    pub fn layer_count(&self) -> (n: usize)
        ensures
            n as int == self.spec_layer_count(),
    {
        self.layer_count
    }

    /// Build a stack from a width per layer: the first entry is the input
    /// width, each later entry one layer's output width.  Every matrix starts
    /// zero-filled.
    pub fn create(layer_arch: &[usize]) -> (net: NNArch)
        requires
            layer_arch@.len() >= 2,
            forall|i: int| 0 <= i < layer_arch@.len() ==> 1 <= #[trigger] layer_arch@[i],
            forall|i: int| 1 <= i < layer_arch@.len()
                ==> #[trigger] (layer_arch@[i - 1] * layer_arch@[i]) <= usize::MAX,
        ensures
            net.wf(),
            net.spec_layer_count() == layer_arch@.len() - 1,
            forall|l: int| 0 <= l <= net.spec_layer_count() ==> #[trigger] net.width(l) == layer_arch@[l],
            forall|l: int|
                #![trigger net.spec_act(l)]
                0 <= l <= net.spec_layer_count()
                    ==> forall|c: int| 0 <= c < net.width(l) ==> #[trigger] net.spec_act(l).at(0, c) == F_ZERO,
            forall|i: int, r: int, c: int|
                0 <= i < net.spec_layer_count() && 0 <= r < net.width(i) && 0 <= c < net.width(i + 1)
                    ==> #[trigger] net.spec_weight(i).at(r, c) == F_ZERO,
            forall|i: int, c: int|
                0 <= i < net.spec_layer_count() && 0 <= c < net.width(i + 1)
                    ==> #[trigger] net.spec_bias(i).at(0, c) == F_ZERO,
    {
        let n_widths = layer_arch.len();
        let layer_count = n_widths - 1;
        let mut al: Vec<NNMatrix> = Vec::new();
        let mut wl: Vec<NNMatrix> = Vec::new();
        let mut bl: Vec<NNMatrix> = Vec::new();

        let w0 = *vstd::slice::slice_index_get(layer_arch, 0);
        let a0 = NNMatrix::empty(1, w0);
        al.push(a0);

        let mut i: usize = 1;
        while i < n_widths
            invariant
                layer_arch@.len() >= 2,
                n_widths == layer_arch@.len(),
                layer_count == layer_arch@.len() - 1,
                forall|k: int| 0 <= k < layer_arch@.len() ==> 1 <= #[trigger] layer_arch@[k],
                forall|k: int| 1 <= k < layer_arch@.len()
                    ==> #[trigger] (layer_arch@[k - 1] * layer_arch@[k]) <= usize::MAX,
                1 <= i <= layer_count + 1,
                al@.len() == i,
                wl@.len() == i - 1,
                bl@.len() == i - 1,
                forall|l: int| 0 <= l < i ==> (#[trigger] al@[l]).wf()
                    && al@[l].spec_rows() == 1
                    && al@[l].spec_cols() == layer_arch@[l],
                forall|l: int|
                    #![trigger al@[l]]
                    0 <= l < i
                        ==> forall|c: int| 0 <= c < layer_arch@[l] ==> al@[l].at(0, c) == F_ZERO,
                forall|k: int| 0 <= k < i - 1 ==> (#[trigger] wl@[k]).wf()
                    && wl@[k].spec_rows() == layer_arch@[k]
                    && wl@[k].spec_cols() == layer_arch@[k + 1],
                forall|k: int|
                    #![trigger wl@[k]]
                    0 <= k < i - 1
                        ==> forall|r: int, c: int|
                            0 <= r < layer_arch@[k] && 0 <= c < layer_arch@[k + 1]
                                ==> wl@[k].at(r, c) == F_ZERO,
                forall|k: int| 0 <= k < i - 1 ==> (#[trigger] bl@[k]).wf()
                    && bl@[k].spec_rows() == 1
                    && bl@[k].spec_cols() == layer_arch@[k + 1],
                forall|k: int|
                    #![trigger bl@[k]]
                    0 <= k < i - 1
                        ==> forall|c: int| 0 <= c < layer_arch@[k + 1] ==> bl@[k].at(0, c) == F_ZERO,
            decreases n_widths - i,
        {
            let w_prev = *vstd::slice::slice_index_get(layer_arch, i - 1);
            let w_cur = *vstd::slice::slice_index_get(layer_arch, i);
            let w = NNMatrix::empty(w_prev, w_cur);
            let b = NNMatrix::empty(1, w_cur);
            let a = NNMatrix::empty(1, w_cur);

            al.push(a);
            bl.push(b);
            wl.push(w);
            i += 1;
        }

        let net = NNArch { layer_count, al, wl, bl };
        proof {
            assert forall|l: int|
                #![trigger net.spec_act(l)]
                0 <= l <= net.spec_layer_count()
                    implies forall|c: int| 0 <= c < net.width(l) ==> #[trigger] net.spec_act(l).at(0, c) == F_ZERO by {
            }
        }
        net
    }

    /// The input activation row (layer 0).
    pub fn get_input(&self) -> (m: &NNMatrix)
        requires
            self.wf(),
        ensures
            *m == self.spec_act(0),
    {
        &self.al[0]
    }

    /// The output activation row (the last layer).
    pub fn get_output(&self) -> (m: &NNMatrix)
        requires
            self.wf(),
        ensures
            *m == self.spec_act(self.spec_layer_count()),
    {
        &self.al[self.layer_count]
    }

    /// A mutable borrow of the input activation row.
    pub fn get_input_mut(&mut self) -> (m: &mut NNMatrix)
        requires
            old(self).wf(),
        ensures
            *m == old(self).spec_act(0),
            final(self).spec_layer_count() == old(self).spec_layer_count(),
            final(self).spec_act(0) == *final(m),
            forall|l: int| 1 <= l <= old(self).spec_layer_count()
                ==> #[trigger] final(self).spec_act(l) == old(self).spec_act(l),
            forall|i: int|
                #![trigger final(self).spec_weight(i)]
                #![trigger final(self).spec_bias(i)]
                0 <= i < old(self).spec_layer_count()
                    ==> final(self).spec_weight(i) == old(self).spec_weight(i)
                        && final(self).spec_bias(i) == old(self).spec_bias(i),
            final(self).acts_len() == old(self).acts_len(),
            final(self).weights_len() == old(self).weights_len(),
            final(self).biases_len() == old(self).biases_len(),
    {
        &mut self.al[0]
    }

    /// A mutable borrow of the output activation row.
    pub fn get_output_mut(&mut self) -> (m: &mut NNMatrix)
        requires
            old(self).wf(),
        ensures
            *m == old(self).spec_act(old(self).spec_layer_count()),
            final(self).spec_layer_count() == old(self).spec_layer_count(),
            final(self).spec_act(old(self).spec_layer_count()) == *final(m),
            forall|l: int| 0 <= l < old(self).spec_layer_count()
                ==> #[trigger] final(self).spec_act(l) == old(self).spec_act(l),
            forall|i: int|
                #![trigger final(self).spec_weight(i)]
                #![trigger final(self).spec_bias(i)]
                0 <= i < old(self).spec_layer_count()
                    ==> final(self).spec_weight(i) == old(self).spec_weight(i)
                        && final(self).spec_bias(i) == old(self).spec_bias(i),
            final(self).acts_len() == old(self).acts_len(),
            final(self).weights_len() == old(self).weights_len(),
            final(self).biases_len() == old(self).biases_len(),
    {
        &mut self.al[self.layer_count]
    }

    /// The activation matrix of layer `l`.
    fn act_ref(&self, l: usize) -> (m: &NNMatrix)
        requires
            self.wf(),
            l <= self.spec_layer_count(),
        ensures
            *m == self.spec_act(l as int),
    {
        &self.al[l]
    }

    /// The weight matrix of layer `i`.
    fn weight_ref(&self, i: usize) -> (m: &NNMatrix)
        requires
            self.wf(),
            i < self.spec_layer_count(),
        ensures
            *m == self.spec_weight(i as int),
    {
        &self.wl[i]
    }

    /// The bias row of layer `i`.
    fn bias_ref(&self, i: usize) -> (m: &NNMatrix)
        requires
            self.wf(),
            i < self.spec_layer_count(),
        ensures
            *m == self.spec_bias(i as int),
    {
        &self.bl[i]
    }

    /// A mutable borrow of the activation matrix of layer `l`.
    fn act_mut(&mut self, l: usize) -> (m: &mut NNMatrix)
        requires
            old(self).wf(),
            l <= old(self).spec_layer_count(),
        ensures
            *m == old(self).spec_act(l as int),
            final(self).spec_act(l as int) == *final(m),
            final(self).spec_layer_count() == old(self).spec_layer_count(),
            final(self).acts_len() == old(self).acts_len(),
            final(self).weights_len() == old(self).weights_len(),
            final(self).biases_len() == old(self).biases_len(),
            forall|k: int| 0 <= k <= old(self).spec_layer_count() && k != l
                ==> #[trigger] final(self).spec_act(k) == old(self).spec_act(k),
            forall|k: int|
                #![trigger final(self).spec_weight(k)]
                #![trigger final(self).spec_bias(k)]
                0 <= k < old(self).spec_layer_count()
                    ==> final(self).spec_weight(k) == old(self).spec_weight(k)
                        && final(self).spec_bias(k) == old(self).spec_bias(k),
    {
        &mut self.al[l]
    }

    /// A mutable borrow of the weight matrix of layer `i`.
    fn weight_mut(&mut self, i: usize) -> (m: &mut NNMatrix)
        requires
            old(self).wf(),
            i < old(self).spec_layer_count(),
        ensures
            *m == old(self).spec_weight(i as int),
            final(self).spec_weight(i as int) == *final(m),
            final(self).spec_layer_count() == old(self).spec_layer_count(),
            final(self).acts_len() == old(self).acts_len(),
            final(self).weights_len() == old(self).weights_len(),
            final(self).biases_len() == old(self).biases_len(),
            forall|k: int| 0 <= k <= old(self).spec_layer_count()
                ==> #[trigger] final(self).spec_act(k) == old(self).spec_act(k),
            forall|k: int| 0 <= k < old(self).spec_layer_count() && k != i
                ==> #[trigger] final(self).spec_weight(k) == old(self).spec_weight(k),
            forall|k: int| 0 <= k < old(self).spec_layer_count()
                ==> #[trigger] final(self).spec_bias(k) == old(self).spec_bias(k),
    {
        &mut self.wl[i]
    }

    /// A mutable borrow of the bias row of layer `i`.
    fn bias_mut(&mut self, i: usize) -> (m: &mut NNMatrix)
        requires
            old(self).wf(),
            i < old(self).spec_layer_count(),
        ensures
            *m == old(self).spec_bias(i as int),
            final(self).spec_bias(i as int) == *final(m),
            final(self).spec_layer_count() == old(self).spec_layer_count(),
            final(self).acts_len() == old(self).acts_len(),
            final(self).weights_len() == old(self).weights_len(),
            final(self).biases_len() == old(self).biases_len(),
            forall|k: int| 0 <= k <= old(self).spec_layer_count()
                ==> #[trigger] final(self).spec_act(k) == old(self).spec_act(k),
            forall|k: int| 0 <= k < old(self).spec_layer_count() && k != i
                ==> #[trigger] final(self).spec_bias(k) == old(self).spec_bias(k),
            forall|k: int| 0 <= k < old(self).spec_layer_count()
                ==> #[trigger] final(self).spec_weight(k) == old(self).spec_weight(k),
    {
        &mut self.bl[i]
    }

    /// The weight matrix of layer `i`.
    pub fn get_weight(&self, i: usize) -> (m: &NNMatrix)
        requires
            self.wf(),
            i < self.spec_layer_count(),
        ensures
            *m == self.spec_weight(i as int),
    {
        &self.wl[i]
    }

    /// The bias row of layer `i`.
    pub fn get_bias(&self, i: usize) -> (m: &NNMatrix)
        requires
            self.wf(),
            i < self.spec_layer_count(),
        ensures
            *m == self.spec_bias(i as int),
    {
        &self.bl[i]
    }

    /// Reset every weight, bias and activation matrix to zero.
    pub fn zeroed(&mut self)
        requires
            old(self).wf(),
        ensures
            final(self).wf(),
            final(self).same_arch(*old(self)),
            final(self).spec_layer_count() == old(self).spec_layer_count(),
            forall|l: int, c: int|
                0 <= l <= old(self).spec_layer_count() && 0 <= c < old(self).width(l)
                    ==> #[trigger] final(self).spec_act(l).at(0, c) == F_ZERO,
            forall|i: int, r: int, c: int|
                0 <= i < old(self).spec_layer_count() && 0 <= r < old(self).width(i)
                    && 0 <= c < old(self).width(i + 1)
                    ==> #[trigger] final(self).spec_weight(i).at(r, c) == F_ZERO,
            forall|i: int, c: int|
                0 <= i < old(self).spec_layer_count() && 0 <= c < old(self).width(i + 1)
                    ==> #[trigger] final(self).spec_bias(i).at(0, c) == F_ZERO,
            final(self).wseqs() == zero_stack(old(self).wseqs()),
            final(self).bseqs() == zero_grid(old(self).bseqs()),
            final(self).aseqs() == zero_acts(old(self).wseqs(), old(self).bseqs(), old(self).spec_layer_count() as nat),
    {
        let lc = self.layer_count();
        let mut i: usize = 0;
        while i < lc
            invariant
                self.wf(),
                old(self).wf(),
                self.same_arch(*old(self)),
                lc == self.spec_layer_count(),
                i <= lc,
                forall|l: int, c: int|
                    0 <= l < i && 0 <= c < self.width(l)
                        ==> #[trigger] self.spec_act(l).at(0, c) == F_ZERO,
                forall|k: int, r: int, c: int|
                    0 <= k < i && 0 <= r < self.width(k) && 0 <= c < self.width(k + 1)
                        ==> #[trigger] self.spec_weight(k).at(r, c) == F_ZERO,
                forall|k: int, c: int|
                    0 <= k < i && 0 <= c < self.width(k + 1)
                        ==> #[trigger] self.spec_bias(k).at(0, c) == F_ZERO,
            decreases lc - i,
        {
            let a = self.act_mut(i);
            a.zeroed();
            proof {
                assert(self.wf());
            }
            let w = self.weight_mut(i);
            w.zeroed();
            proof {
                assert(self.wf());
            }
            let b = self.bias_mut(i);
            b.zeroed();
            proof {
                assert(self.wf());
            }
            i += 1;
        }
        let a = self.act_mut(lc);
        a.zeroed();
        proof {
            assert(self.wf());
            let lcx = self.spec_layer_count();
            assert forall|k: int| 0 <= k < lcx implies #[trigger] self.wseqs()[k]
                == zero_stack(old(self).wseqs())[k] by {
                let m = self.spec_weight(k).mseq();
                let z = zero_grid(old(self).wseqs()[k]);
                assert(old(self).spec_weight(k).spec_rows() == old(self).width(k));
                assert(m.len() == z.len());
                assert forall|r: int| 0 <= r < m.len() implies #[trigger] m[r] == z[r] by {
                    assert(m[r] =~= z[r]);
                }
                assert(m =~= z);
            }
            assert(self.wseqs() =~= zero_stack(old(self).wseqs()));
            assert forall|k: int| 0 <= k < lcx implies #[trigger] self.bseqs()[k]
                == zero_grid(old(self).bseqs())[k] by {
                assert(old(self).spec_bias(k).spec_rows() == 1);
                assert(self.bseqs()[k] =~= zero_grid(old(self).bseqs())[k]);
            }
            assert(self.bseqs() =~= zero_grid(old(self).bseqs()));
            assert forall|k: int| 0 <= k <= lcx implies #[trigger] self.aseqs()[k]
                == zero_acts(old(self).wseqs(), old(self).bseqs(), old(self).spec_layer_count() as nat)[k] by {
                assert(old(self).spec_act(k).spec_rows() == 1);
                if k == 0 {
                    assert(old(self).spec_weight(0).spec_rows() == old(self).width(0));
                }
                assert(self.aseqs()[k] =~= zero_acts(old(self).wseqs(), old(self).bseqs(), old(self).spec_layer_count() as nat)[k]);
            }
            assert(self.aseqs() =~= zero_acts(old(self).wseqs(), old(self).bseqs(), old(self).spec_layer_count() as nat));
        }
    }

    /// Fill every weight and bias with a fresh draw mapped onto `[min, max)`;
    /// the activation rows are left alone.
    #[verifier::rlimit(50)]
    pub fn randomize_range(&mut self, rng: &mut rand::rngs::StdRng, min: Scalar, max: Scalar)
        requires
            old(self).wf(),
        ensures
            final(self).wf(),
            final(self).same_arch(*old(self)),
            final(self).spec_layer_count() == old(self).spec_layer_count(),
            forall|l: int| 0 <= l <= old(self).spec_layer_count()
                ==> #[trigger] final(self).spec_act(l) == old(self).spec_act(l),
            forall|i: int, r: int, c: int|
                0 <= i < old(self).spec_layer_count() && 0 <= r < old(self).width(i)
                    && 0 <= c < old(self).width(i + 1)
                    ==> is_uniform_mix(min, max, #[trigger] final(self).spec_weight(i).at(r, c)),
            forall|i: int, c: int|
                0 <= i < old(self).spec_layer_count() && 0 <= c < old(self).width(i + 1)
                    ==> is_uniform_mix(min, max, #[trigger] final(self).spec_bias(i).at(0, c)),
    {
        let lc = self.layer_count();
        let mut i: usize = 0;
        while i < lc
            invariant
                self.wf(),
                old(self).wf(),
                self.same_arch(*old(self)),
                lc == self.spec_layer_count(),
                i <= lc,
                forall|l: int| 0 <= l <= lc ==> #[trigger] self.spec_act(l) == old(self).spec_act(l),
                forall|k: int| 0 <= k < lc ==> #[trigger] self.spec_bias(k) == old(self).spec_bias(k),
                forall|k: int, r: int, c: int|
                    0 <= k < i && 0 <= r < self.width(k) && 0 <= c < self.width(k + 1)
                        ==> is_uniform_mix(min, max, #[trigger] self.spec_weight(k).at(r, c)),
            decreases lc - i,
        {
            let w = self.weight_mut(i);
            w.rand_range(rng, min, max);
            i += 1;
        }
        let mut i: usize = 0;
        while i < lc
            invariant
                self.wf(),
                old(self).wf(),
                self.same_arch(*old(self)),
                lc == self.spec_layer_count(),
                i <= lc,
                forall|l: int| 0 <= l <= lc ==> #[trigger] self.spec_act(l) == old(self).spec_act(l),
                forall|k: int, r: int, c: int|
                    0 <= k < lc && 0 <= r < self.width(k) && 0 <= c < self.width(k + 1)
                        ==> is_uniform_mix(min, max, #[trigger] self.spec_weight(k).at(r, c)),
                forall|k: int, c: int|
                    0 <= k < i && 0 <= c < self.width(k + 1)
                        ==> is_uniform_mix(min, max, #[trigger] self.spec_bias(k).at(0, c)),
                forall|k: int| i <= k < lc ==> #[trigger] self.spec_bias(k) == old(self).spec_bias(k),
            decreases lc - i,
        {
            let b = self.bias_mut(i);
            b.rand_range(rng, min, max);
            i += 1;
        }
    }

    /// Fill every weight and bias with a fresh draw mapped onto `[0, 1)`.
    pub fn randomize(&mut self, rng: &mut rand::rngs::StdRng)
        requires
            old(self).wf(),
        ensures
            final(self).wf(),
            final(self).same_arch(*old(self)),
            final(self).spec_layer_count() == old(self).spec_layer_count(),
            forall|l: int| 0 <= l <= old(self).spec_layer_count()
                ==> #[trigger] final(self).spec_act(l) == old(self).spec_act(l),
            forall|i: int, r: int, c: int|
                0 <= i < old(self).spec_layer_count() && 0 <= r < old(self).width(i)
                    && 0 <= c < old(self).width(i + 1)
                    ==> is_uniform_mix(F_ZERO, F_ONE, #[trigger] final(self).spec_weight(i).at(r, c)),
            forall|i: int, c: int|
                0 <= i < old(self).spec_layer_count() && 0 <= c < old(self).width(i + 1)
                    ==> is_uniform_mix(F_ZERO, F_ONE, #[trigger] final(self).spec_bias(i).at(0, c)),
    {
        self.randomize_range(rng, F_ZERO, F_ONE)
    }

    /// One forward pass: for each layer in order,
    /// `activation[l+1] = sigmoid(activation[l] * weight[l] + bias[l])`.
    /// The input row (activation 0) is read, never written; every later
    /// activation row is overwritten.
    pub fn forward(&mut self)
        requires
            old(self).wf(),
        ensures
            final(self).wf(),
            final(self).same_arch(*old(self)),
            final(self).spec_layer_count() == old(self).spec_layer_count(),
            final(self).spec_act(0) == old(self).spec_act(0),
            forall|i: int|
                #![trigger final(self).spec_weight(i)]
                #![trigger final(self).spec_bias(i)]
                0 <= i < old(self).spec_layer_count()
                    ==> final(self).spec_weight(i) == old(self).spec_weight(i)
                        && final(self).spec_bias(i) == old(self).spec_bias(i),
            forall|l: int|
                #![trigger final(self).spec_act(l)]
                1 <= l <= old(self).spec_layer_count()
                    ==> final(self).act_row(l)
                        == act_after_bits(old(self).wseqs(), old(self).bseqs(), old(self).act_row(0), l as nat),
    {
        let lc = self.layer_count();
        let mut i: usize = 0;
        while i < lc
            invariant
                self.wf(),
                old(self).wf(),
                self.same_arch(*old(self)),
                lc == self.spec_layer_count(),
                i <= lc,
                self.spec_act(0) == old(self).spec_act(0),
                forall|k: int|
                    #![trigger self.spec_weight(k)]
                    #![trigger self.spec_bias(k)]
                    0 <= k < lc
                        ==> self.spec_weight(k) == old(self).spec_weight(k)
                            && self.spec_bias(k) == old(self).spec_bias(k),
                forall|l: int|
                    #![trigger self.spec_act(l)]
                    1 <= l <= i
                        ==> self.act_row(l)
                            == act_after_bits(old(self).wseqs(), old(self).bseqs(), old(self).act_row(0), l as nat),
            decreases lc - i,
        {
            let mut prod = self.act_ref(i).mul_mat(self.weight_ref(i));
            prod.add_assign_mat(self.bias_ref(i));
            prod.sigmoid();
            proof {
                let ws = old(self).wseqs();
                let bs = old(self).bseqs();
                let x0 = old(self).act_row(0);
                let prev = self.act_row(i as int);
                let n_in = self.width(i as int) as nat;
                assert(self.wseqs()[i as int] == self.spec_weight(i as int).mseq());
                assert(ws[i as int] == old(self).spec_weight(i as int).mseq());
                assert(prev == act_after_bits(ws, bs, x0, i as nat));
                assert(self.spec_act(i as int).mseq()[0] == prev);
                assert forall|j: int| 0 <= j < self.width(i as int + 1) implies
                    prod.at(0, j) == layer_row_bits(prev, ws[i as int], bs[i as int], bs[i as int].len() as nat)[j] by {
                    lemma_row_dot(self.spec_act(i as int).mseq(), self.spec_weight(i as int).mseq(), j, n_in);
                    assert(bs[i as int][j] == self.spec_bias(i as int).at(0, j));
                }
                assert(bs[i as int].len() == self.width(i as int + 1));
            }
            let slot = self.act_mut(i + 1);
            *slot = prod;
            proof {
                assert(self.act_row(i as int + 1) =~= act_after_bits(
                    old(self).wseqs(), old(self).bseqs(), old(self).act_row(0), (i + 1) as nat));
            }
            i += 1;
        }
    }
}

impl NNArch {
    /// Copy one sample row of `df` into the input activation row.
    fn stage_input(&mut self, df: &NNMatrix, row: usize)
        requires
            old(self).wf(),
            df.wf(),
            df.spec_cols() == old(self).width(0),
            row < df.spec_rows(),
        ensures
            final(self).wf(),
            final(self).same_arch(*old(self)),
            final(self).spec_layer_count() == old(self).spec_layer_count(),
            final(self).act_row(0) == df.mseq()[row as int],
            forall|k: int| 1 <= k <= old(self).spec_layer_count()
                ==> #[trigger] final(self).spec_act(k) == old(self).spec_act(k),
            forall|k: int|
                #![trigger final(self).spec_weight(k)]
                #![trigger final(self).spec_bias(k)]
                0 <= k < old(self).spec_layer_count()
                    ==> final(self).spec_weight(k) == old(self).spec_weight(k)
                        && final(self).spec_bias(k) == old(self).spec_bias(k),
    {
        let cols = df.cols();
        let r = df.get_row(row);
        let mut c: usize = 0;
        while c < cols
            invariant
                self.wf(),
                old(self).wf(),
                self.same_arch(*old(self)),
                df.wf(),
                df.spec_cols() == self.width(0),
                cols == df.spec_cols(),
                row < df.spec_rows(),
                r@ == df.mseq()[row as int],
                r@.len() == cols,
                c <= cols,
                forall|k: int| 1 <= k <= old(self).spec_layer_count()
                    ==> #[trigger] self.spec_act(k) == old(self).spec_act(k),
                forall|k: int|
                    #![trigger self.spec_weight(k)]
                    #![trigger self.spec_bias(k)]
                    0 <= k < old(self).spec_layer_count()
                        ==> self.spec_weight(k) == old(self).spec_weight(k)
                            && self.spec_bias(k) == old(self).spec_bias(k),
                forall|cc: int| 0 <= cc < c ==> #[trigger] self.spec_act(0).at(0, cc) == r@[cc],
            decreases cols - c,
        {
            let v = r[c];
            let a = self.act_mut(0);
            a.set_at(0, c, v);
            c += 1;
        }
        proof {
            assert(self.act_row(0) =~= df.mseq()[row as int]);
        }
    }

    /// The mean squared error of the network over a labeled dataset:
    /// each sample row of `df_input` is staged into activation 0 and
    /// forward-evaluated, the squared error against the matching row of
    /// `df_output` is accumulated, and the total is divided by the number of
    /// rows.  The activation rows are scratch: on return they hold the last
    /// sample's forward pass.
    pub fn cost(&mut self, df_input: &NNMatrix, df_output: &NNMatrix) -> (c: Scalar)
        requires
            old(self).wf(),
            df_input.wf(),
            df_output.wf(),
            df_input.spec_cols() == old(self).width(0),
            df_output.spec_cols() == old(self).width(old(self).spec_layer_count()),
            df_input.spec_rows() == df_output.spec_rows(),
        ensures
            final(self).wf(),
            final(self).same_arch(*old(self)),
            final(self).spec_layer_count() == old(self).spec_layer_count(),
            forall|i: int|
                #![trigger final(self).spec_weight(i)]
                #![trigger final(self).spec_bias(i)]
                0 <= i < old(self).spec_layer_count()
                    ==> final(self).spec_weight(i) == old(self).spec_weight(i)
                        && final(self).spec_bias(i) == old(self).spec_bias(i),
            final(self).wseqs() == old(self).wseqs(),
            final(self).bseqs() == old(self).bseqs(),
            df_input.spec_rows() > 0 ==> final(self).act_row(0)
                == df_input.mseq()[df_input.spec_rows() - 1],
            forall|l: int|
                #![trigger final(self).spec_act(l)]
                df_input.spec_rows() > 0 && 1 <= l <= old(self).spec_layer_count()
                    ==> final(self).act_row(l) == act_after_bits(
                        old(self).wseqs(),
                        old(self).bseqs(),
                        df_input.mseq()[df_input.spec_rows() - 1],
                        l as nat,
                    ),
            c == cost_bits(
                old(self).wseqs(),
                old(self).bseqs(),
                df_input.mseq(),
                df_output.mseq(),
                old(self).spec_layer_count() as nat,
                df_input.spec_rows() as nat,
            ),
    {
        let lc = self.layer_count();
        let rows = df_input.rows();
        let out_cols = df_output.cols();
        let mut cost: Scalar = F_ZERO;
        let mut i: usize = 0;
        proof {
            assert(self.wseqs() =~= old(self).wseqs());
            assert(self.bseqs() =~= old(self).bseqs());
        }
        while i < rows
            invariant
                self.wf(),
                old(self).wf(),
                self.same_arch(*old(self)),
                lc == self.spec_layer_count(),
                df_input.wf(),
                df_output.wf(),
                df_input.spec_cols() == self.width(0),
                df_output.spec_cols() == self.width(lc as int),
                df_input.spec_rows() == rows,
                df_output.spec_rows() == rows,
                df_output.spec_cols() == out_cols,
                i <= rows,
                forall|k: int|
                    #![trigger self.spec_weight(k)]
                    #![trigger self.spec_bias(k)]
                    0 <= k < lc
                        ==> self.spec_weight(k) == old(self).spec_weight(k)
                            && self.spec_bias(k) == old(self).spec_bias(k),
                self.wseqs() == old(self).wseqs(),
                self.bseqs() == old(self).bseqs(),
                i > 0 ==> self.act_row(0) == df_input.mseq()[i - 1],
                forall|l: int|
                    #![trigger self.spec_act(l)]
                    i > 0 && 1 <= l <= lc
                        ==> self.act_row(l) == act_after_bits(
                            old(self).wseqs(),
                            old(self).bseqs(),
                            df_input.mseq()[i - 1],
                            l as nat,
                        ),
                cost == cost_acc_bits(
                    old(self).wseqs(),
                    old(self).bseqs(),
                    df_input.mseq(),
                    df_output.mseq(),
                    lc as nat,
                    i as nat,
                ),
            decreases rows - i,
        {
            self.stage_input(df_input, i);
            proof {
                assert(self.wseqs() =~= old(self).wseqs());
                assert(self.bseqs() =~= old(self).bseqs());
            }
            self.forward();
            proof {
                assert(self.wseqs() =~= old(self).wseqs());
                assert(self.bseqs() =~= old(self).bseqs());
            }
            let result = self.get_output().get_row(0);
            let output = df_output.get_row(i);
            proof {
                assert(result@ == act_after_bits(
                    old(self).wseqs(), old(self).bseqs(), df_input.mseq()[i as int], lc as nat));
                assert(output@ == df_output.mseq()[i as int]);
                assert(output@.len() == out_cols);
                assert(result@.len() == self.width(lc as int));
            }
            let ghost cost_before = cost;
            let mut col: usize = 0;
            while col < out_cols
                invariant
                    col <= out_cols,
                    output@.len() == out_cols,
                    result@.len() == out_cols,
                    cost == row_cost_bits(cost_before, output@, result@, col as nat),
                decreases out_cols - col,
            {
                let diff = scalar_sub(output[col], result[col]);
                cost = scalar_add(cost, scalar_mul(diff, diff));
                col += 1;
            }
            i += 1;
        }
        scalar_div(cost, scalar_of_uint(rows as u64))
    }
}

impl NNArch {
    /// One gradient-descent step: every weight and bias moves against its
    /// gradient, `value -= rate * gradient_value`.  The activation rows are
    /// left alone.
    pub fn learn(&mut self, gradient: &NNArch, rate: Scalar)
        requires
            old(self).wf(),
            gradient.wf(),
            old(self).same_arch(*gradient),
        ensures
            final(self).wf(),
            final(self).same_arch(*old(self)),
            final(self).spec_layer_count() == old(self).spec_layer_count(),
            forall|l: int| 0 <= l <= old(self).spec_layer_count()
                ==> #[trigger] final(self).spec_act(l) == old(self).spec_act(l),
            forall|i: int, r: int, c: int|
                0 <= i < old(self).spec_layer_count() && 0 <= r < old(self).width(i)
                    && 0 <= c < old(self).width(i + 1)
                    ==> #[trigger] final(self).spec_weight(i).at(r, c)
                        == sub_bits(old(self).wseqs()[i][r][c], mul_bits(rate, gradient.wseqs()[i][r][c])),
            forall|i: int, c: int|
                0 <= i < old(self).spec_layer_count() && 0 <= c < old(self).width(i + 1)
                    ==> #[trigger] final(self).spec_bias(i).at(0, c)
                        == sub_bits(old(self).bseqs()[i][c], mul_bits(rate, gradient.bseqs()[i][c])),
    {
        let lc = self.layer_count();
        let mut i: usize = 0;
        while i < lc
            invariant
                self.wf(),
                old(self).wf(),
                gradient.wf(),
                self.same_arch(*old(self)),
                self.same_arch(*gradient),
                lc == self.spec_layer_count(),
                i <= lc,
                forall|l: int| 0 <= l <= lc ==> #[trigger] self.spec_act(l) == old(self).spec_act(l),
                forall|k: int| 0 <= k < lc ==> #[trigger] self.spec_bias(k) == old(self).spec_bias(k),
                forall|k: int| i <= k < lc ==> #[trigger] self.spec_weight(k) == old(self).spec_weight(k),
                forall|k: int, r: int, c: int|
                    0 <= k < i && 0 <= r < self.width(k) && 0 <= c < self.width(k + 1)
                        ==> #[trigger] self.spec_weight(k).at(r, c)
                            == sub_bits(old(self).wseqs()[k][r][c], mul_bits(rate, gradient.wseqs()[k][r][c])),
            decreases lc - i,
        {
            let n_rows = self.weight_ref(i).rows();
            let n_cols = self.weight_ref(i).cols();
            let mut row: usize = 0;
            while row < n_rows
                invariant
                    self.wf(),
                    old(self).wf(),
                    gradient.wf(),
                    self.same_arch(*old(self)),
                    self.same_arch(*gradient),
                    lc == self.spec_layer_count(),
                    i < lc,
                    row <= n_rows,
                    n_rows == self.width(i as int),
                    n_cols == self.width(i as int + 1),
                    forall|l: int| 0 <= l <= lc ==> #[trigger] self.spec_act(l) == old(self).spec_act(l),
                    forall|k: int| 0 <= k < lc ==> #[trigger] self.spec_bias(k) == old(self).spec_bias(k),
                    forall|k: int| i < k < lc ==> #[trigger] self.spec_weight(k) == old(self).spec_weight(k),
                    self.spec_weight(i as int).wf(),
                    self.spec_weight(i as int).spec_rows() == n_rows,
                    self.spec_weight(i as int).spec_cols() == n_cols,
                    forall|k: int, r: int, c: int|
                        0 <= k < i && 0 <= r < self.width(k) && 0 <= c < self.width(k + 1)
                            ==> #[trigger] self.spec_weight(k).at(r, c)
                                == sub_bits(old(self).wseqs()[k][r][c], mul_bits(rate, gradient.wseqs()[k][r][c])),
                    forall|r: int, c: int|
                        0 <= r < row && 0 <= c < n_cols
                            ==> #[trigger] self.spec_weight(i as int).at(r, c)
                                == sub_bits(old(self).wseqs()[i as int][r][c], mul_bits(rate, gradient.wseqs()[i as int][r][c])),
                    forall|r: int, c: int|
                        row <= r < n_rows && 0 <= c < n_cols
                            ==> #[trigger] self.spec_weight(i as int).at(r, c) == old(self).wseqs()[i as int][r][c],
                decreases n_rows - row,
            {
                let mut col: usize = 0;
                while col < n_cols
                    invariant
                        self.wf(),
                        old(self).wf(),
                        gradient.wf(),
                        self.same_arch(*old(self)),
                        self.same_arch(*gradient),
                        lc == self.spec_layer_count(),
                        i < lc,
                        row < n_rows,
                        col <= n_cols,
                        n_rows == self.width(i as int),
                        n_cols == self.width(i as int + 1),
                        forall|l: int| 0 <= l <= lc ==> #[trigger] self.spec_act(l) == old(self).spec_act(l),
                        forall|k: int| 0 <= k < lc ==> #[trigger] self.spec_bias(k) == old(self).spec_bias(k),
                        forall|k: int| i < k < lc ==> #[trigger] self.spec_weight(k) == old(self).spec_weight(k),
                        self.spec_weight(i as int).wf(),
                        self.spec_weight(i as int).spec_rows() == n_rows,
                        self.spec_weight(i as int).spec_cols() == n_cols,
                        forall|k: int, r: int, c: int|
                            0 <= k < i && 0 <= r < self.width(k) && 0 <= c < self.width(k + 1)
                                ==> #[trigger] self.spec_weight(k).at(r, c)
                                    == sub_bits(old(self).wseqs()[k][r][c], mul_bits(rate, gradient.wseqs()[k][r][c])),
                        forall|r: int, c: int|
                            0 <= r < row && 0 <= c < n_cols
                                ==> #[trigger] self.spec_weight(i as int).at(r, c)
                                    == sub_bits(old(self).wseqs()[i as int][r][c], mul_bits(rate, gradient.wseqs()[i as int][r][c])),
                        forall|c: int|
                            0 <= c < col
                                ==> #[trigger] self.spec_weight(i as int).at(row as int, c)
                                    == sub_bits(old(self).wseqs()[i as int][row as int][c], mul_bits(rate, gradient.wseqs()[i as int][row as int][c])),
                        forall|c: int|
                            col <= c < n_cols
                                ==> #[trigger] self.spec_weight(i as int).at(row as int, c) == old(self).wseqs()[i as int][row as int][c],
                        forall|r: int, c: int|
                            row < r < n_rows && 0 <= c < n_cols
                                ==> #[trigger] self.spec_weight(i as int).at(r, c) == old(self).wseqs()[i as int][r][c],
                    decreases n_cols - col,
                {
                    let g = gradient.weight_ref(i).get_at(row, col);
                    let wv = self.weight_ref(i).get_at(row, col);
                    let nv = scalar_sub(wv, scalar_mul(rate, g));
                    let w = self.weight_mut(i);
                    w.set_at(row, col, nv);
                    col += 1;
                }
                row += 1;
            }
            i += 1;
        }
        let mut i: usize = 0;
        while i < lc
            invariant
                self.wf(),
                old(self).wf(),
                gradient.wf(),
                self.same_arch(*old(self)),
                self.same_arch(*gradient),
                lc == self.spec_layer_count(),
                i <= lc,
                forall|l: int| 0 <= l <= lc ==> #[trigger] self.spec_act(l) == old(self).spec_act(l),
                forall|k: int, r: int, c: int|
                    0 <= k < lc && 0 <= r < self.width(k) && 0 <= c < self.width(k + 1)
                        ==> #[trigger] self.spec_weight(k).at(r, c)
                            == sub_bits(old(self).wseqs()[k][r][c], mul_bits(rate, gradient.wseqs()[k][r][c])),
                forall|k: int| i <= k < lc ==> #[trigger] self.spec_bias(k) == old(self).spec_bias(k),
                forall|k: int, c: int|
                    0 <= k < i && 0 <= c < self.width(k + 1)
                        ==> #[trigger] self.spec_bias(k).at(0, c)
                            == sub_bits(old(self).bseqs()[k][c], mul_bits(rate, gradient.bseqs()[k][c])),
            decreases lc - i,
        {
            let n_cols = self.bias_ref(i).cols();
            let mut col: usize = 0;
            while col < n_cols
                invariant
                    self.wf(),
                    old(self).wf(),
                    gradient.wf(),
                    self.same_arch(*old(self)),
                    self.same_arch(*gradient),
                    lc == self.spec_layer_count(),
                    i < lc,
                    col <= n_cols,
                    n_cols == self.width(i as int + 1),
                    forall|l: int| 0 <= l <= lc ==> #[trigger] self.spec_act(l) == old(self).spec_act(l),
                    forall|k: int, r: int, c: int|
                        0 <= k < lc && 0 <= r < self.width(k) && 0 <= c < self.width(k + 1)
                            ==> #[trigger] self.spec_weight(k).at(r, c)
                                == sub_bits(old(self).wseqs()[k][r][c], mul_bits(rate, gradient.wseqs()[k][r][c])),
                    forall|k: int| i < k < lc ==> #[trigger] self.spec_bias(k) == old(self).spec_bias(k),
                    self.spec_bias(i as int).wf(),
                    self.spec_bias(i as int).spec_rows() == 1,
                    self.spec_bias(i as int).spec_cols() == n_cols,
                    forall|k: int, c: int|
                        0 <= k < i && 0 <= c < self.width(k + 1)
                            ==> #[trigger] self.spec_bias(k).at(0, c)
                                == sub_bits(old(self).bseqs()[k][c], mul_bits(rate, gradient.bseqs()[k][c])),
                    forall|c: int|
                        0 <= c < col
                            ==> #[trigger] self.spec_bias(i as int).at(0, c)
                                == sub_bits(old(self).bseqs()[i as int][c], mul_bits(rate, gradient.bseqs()[i as int][c])),
                    forall|c: int|
                        col <= c < n_cols
                            ==> #[trigger] self.spec_bias(i as int).at(0, c) == old(self).bseqs()[i as int][c],
                decreases n_cols - col,
            {
                let g = gradient.bias_ref(i).get_at(0, col);
                let bv = self.bias_ref(i).get_at(0, col);
                let nv = scalar_sub(bv, scalar_mul(rate, g));
                let b = self.bias_mut(i);
                b.set_at(0, col, nv);
                col += 1;
            }
            i += 1;
        }
    }
}

impl NNArch {
    /// The finite-difference gradient estimate: for every weight and bias
    /// cell, add `eps` to that one cell, re-evaluate the cost, and store
    /// `(perturbed_cost - cost) / eps` in the matching cell of `gradient`;
    /// the perturbed cell is restored before the next one is touched, so the
    /// weights and biases come back bit-for-bit unchanged.
    pub fn finite_diff(
        &mut self,
        gradient: &mut NNArch,
        df_input: &NNMatrix,
        df_output: &NNMatrix,
        eps: Scalar,
    )
        requires
            old(self).wf(),
            old(gradient).wf(),
            old(self).same_arch(*old(gradient)),
            df_input.wf(),
            df_output.wf(),
            df_input.spec_cols() == old(self).width(0),
            df_output.spec_cols() == old(self).width(old(self).spec_layer_count()),
            df_input.spec_rows() == df_output.spec_rows(),
        ensures
            final(self).wf(),
            final(self).same_arch(*old(self)),
            final(self).spec_layer_count() == old(self).spec_layer_count(),
            final(self).wseqs() == old(self).wseqs(),
            final(self).bseqs() == old(self).bseqs(),
            final(gradient).wf(),
            final(gradient).same_arch(*old(gradient)),
            final(gradient).spec_layer_count() == old(gradient).spec_layer_count(),
            forall|l: int| 0 <= l <= old(gradient).spec_layer_count()
                ==> #[trigger] final(gradient).spec_act(l) == old(gradient).spec_act(l),
            forall|i: int, r: int, c: int|
                0 <= i < old(self).spec_layer_count() && 0 <= r < old(self).width(i)
                    && 0 <= c < old(self).width(i + 1)
                    ==> #[trigger] final(gradient).spec_weight(i).at(r, c) == div_bits(
                        sub_bits(
                            cost_bits(
                                perturb_w_bits(old(self).wseqs(), i, r, c, eps),
                                old(self).bseqs(),
                                df_input.mseq(),
                                df_output.mseq(),
                                old(self).spec_layer_count() as nat,
                                df_input.spec_rows() as nat,
                            ),
                            cost_bits(
                                old(self).wseqs(),
                                old(self).bseqs(),
                                df_input.mseq(),
                                df_output.mseq(),
                                old(self).spec_layer_count() as nat,
                                df_input.spec_rows() as nat,
                            ),
                        ),
                        eps,
                    ),
            forall|i: int, c: int|
                0 <= i < old(self).spec_layer_count() && 0 <= c < old(self).width(i + 1)
                    ==> #[trigger] final(gradient).spec_bias(i).at(0, c) == div_bits(
                        sub_bits(
                            cost_bits(
                                old(self).wseqs(),
                                perturb_b_bits(old(self).bseqs(), i, c, eps),
                                df_input.mseq(),
                                df_output.mseq(),
                                old(self).spec_layer_count() as nat,
                                df_input.spec_rows() as nat,
                            ),
                            cost_bits(
                                old(self).wseqs(),
                                old(self).bseqs(),
                                df_input.mseq(),
                                df_output.mseq(),
                                old(self).spec_layer_count() as nat,
                                df_input.spec_rows() as nat,
                            ),
                        ),
                        eps,
                    ),
    {
        let ghost ws0 = old(self).wseqs();
        let ghost bs0 = old(self).bseqs();
        let ghost inp = df_input.mseq();
        let ghost outp = df_output.mseq();
        let ghost lcn = old(self).spec_layer_count() as nat;
        let ghost nr = df_input.spec_rows() as nat;

        let lc = self.layer_count();
        let cost = self.cost(df_input, df_output);
        proof {
            assert(cost == cost_bits(ws0, bs0, inp, outp, lcn, nr));
        }

        let mut i: usize = 0;
        while i < lc
            invariant
                self.wf(),
                old(self).wf(),
                gradient.wf(),
                self.same_arch(*old(self)),
                self.same_arch(*gradient),
                gradient.same_arch(*old(gradient)),
                lc == self.spec_layer_count(),
                i <= lc,
                df_input.wf(),
                df_output.wf(),
                df_input.spec_cols() == self.width(0),
                df_output.spec_cols() == self.width(lc as int),
                df_input.spec_rows() == df_output.spec_rows(),
                ws0 == old(self).wseqs(),
                bs0 == old(self).bseqs(),
                inp == df_input.mseq(),
                outp == df_output.mseq(),
                lcn == lc as nat,
                nr == df_input.spec_rows() as nat,
                self.wseqs() == ws0,
                self.bseqs() == bs0,
                cost == cost_bits(ws0, bs0, inp, outp, lcn, nr),
                forall|l: int| 0 <= l <= lc ==> #[trigger] gradient.spec_act(l) == old(gradient).spec_act(l),
                forall|k: int| 0 <= k < lc ==> #[trigger] gradient.spec_bias(k) == old(gradient).spec_bias(k),
                forall|k: int, r: int, c: int|
                    0 <= k < i && 0 <= r < self.width(k) && 0 <= c < self.width(k + 1)
                        ==> #[trigger] gradient.spec_weight(k).at(r, c) == div_bits(
                            sub_bits(cost_bits(perturb_w_bits(ws0, k, r, c, eps), bs0, inp, outp, lcn, nr), cost),
                            eps,
                        ),
            decreases lc - i,
        {
            let n_rows = self.weight_ref(i).rows();
            let n_cols = self.weight_ref(i).cols();
            let mut row: usize = 0;
            while row < n_rows
                invariant
                    self.wf(),
                    old(self).wf(),
                    gradient.wf(),
                    self.same_arch(*old(self)),
                    self.same_arch(*gradient),
                    gradient.same_arch(*old(gradient)),
                    lc == self.spec_layer_count(),
                    i < lc,
                    row <= n_rows,
                    n_rows == self.width(i as int),
                    n_cols == self.width(i as int + 1),
                    df_input.wf(),
                    df_output.wf(),
                    df_input.spec_cols() == self.width(0),
                    df_output.spec_cols() == self.width(lc as int),
                    df_input.spec_rows() == df_output.spec_rows(),
                    ws0 == old(self).wseqs(),
                    bs0 == old(self).bseqs(),
                    inp == df_input.mseq(),
                    outp == df_output.mseq(),
                    lcn == lc as nat,
                    nr == df_input.spec_rows() as nat,
                    self.wseqs() == ws0,
                    self.bseqs() == bs0,
                    cost == cost_bits(ws0, bs0, inp, outp, lcn, nr),
                    forall|l: int| 0 <= l <= lc ==> #[trigger] gradient.spec_act(l) == old(gradient).spec_act(l),
                    forall|k: int| 0 <= k < lc ==> #[trigger] gradient.spec_bias(k) == old(gradient).spec_bias(k),
                    forall|k: int, r: int, c: int|
                        0 <= k < i && 0 <= r < self.width(k) && 0 <= c < self.width(k + 1)
                            ==> #[trigger] gradient.spec_weight(k).at(r, c) == div_bits(
                                sub_bits(cost_bits(perturb_w_bits(ws0, k, r, c, eps), bs0, inp, outp, lcn, nr), cost),
                                eps,
                            ),
                    forall|r: int, c: int|
                        0 <= r < row && 0 <= c < n_cols
                            ==> #[trigger] gradient.spec_weight(i as int).at(r, c) == div_bits(
                                sub_bits(cost_bits(perturb_w_bits(ws0, i as int, r, c, eps), bs0, inp, outp, lcn, nr), cost),
                                eps,
                            ),
                decreases n_rows - row,
            {
                let mut col: usize = 0;
                while col < n_cols
                    invariant
                        self.wf(),
                        old(self).wf(),
                        gradient.wf(),
                        self.same_arch(*old(self)),
                        self.same_arch(*gradient),
                        gradient.same_arch(*old(gradient)),
                        lc == self.spec_layer_count(),
                        i < lc,
                        row < n_rows,
                        col <= n_cols,
                        n_rows == self.width(i as int),
                        n_cols == self.width(i as int + 1),
                        df_input.wf(),
                        df_output.wf(),
                        df_input.spec_cols() == self.width(0),
                        df_output.spec_cols() == self.width(lc as int),
                        df_input.spec_rows() == df_output.spec_rows(),
                        ws0 == old(self).wseqs(),
                        bs0 == old(self).bseqs(),
                        inp == df_input.mseq(),
                        outp == df_output.mseq(),
                        lcn == lc as nat,
                        nr == df_input.spec_rows() as nat,
                        self.wseqs() == ws0,
                        self.bseqs() == bs0,
                        cost == cost_bits(ws0, bs0, inp, outp, lcn, nr),
                        forall|l: int| 0 <= l <= lc ==> #[trigger] gradient.spec_act(l) == old(gradient).spec_act(l),
                        forall|k: int| 0 <= k < lc ==> #[trigger] gradient.spec_bias(k) == old(gradient).spec_bias(k),
                        forall|k: int, r: int, c: int|
                            0 <= k < i && 0 <= r < self.width(k) && 0 <= c < self.width(k + 1)
                                ==> #[trigger] gradient.spec_weight(k).at(r, c) == div_bits(
                                    sub_bits(cost_bits(perturb_w_bits(ws0, k, r, c, eps), bs0, inp, outp, lcn, nr), cost),
                                    eps,
                                ),
                        forall|r: int, c: int|
                            0 <= r < row && 0 <= c < n_cols
                                ==> #[trigger] gradient.spec_weight(i as int).at(r, c) == div_bits(
                                    sub_bits(cost_bits(perturb_w_bits(ws0, i as int, r, c, eps), bs0, inp, outp, lcn, nr), cost),
                                    eps,
                                ),
                        forall|c: int|
                            0 <= c < col
                                ==> #[trigger] gradient.spec_weight(i as int).at(row as int, c) == div_bits(
                                    sub_bits(cost_bits(perturb_w_bits(ws0, i as int, row as int, c, eps), bs0, inp, outp, lcn, nr), cost),
                                    eps,
                                ),
                    decreases n_cols - col,
                {
                    let saved = self.weight_ref(i).get_at(row, col);
                    let bumped = scalar_add(saved, eps);
                    let w = self.weight_mut(i);
                    w.set_at(row, col, bumped);
                    proof {
                        assert(saved == ws0[i as int][row as int][col as int]);
                        assert(self.wseqs() =~~= perturb_w_bits(ws0, i as int, row as int, col as int, eps));
                        assert(self.bseqs() =~= bs0);
                    }
                    let c1 = self.cost(df_input, df_output);
                    proof {
                        assert(c1 == cost_bits(perturb_w_bits(ws0, i as int, row as int, col as int, eps), bs0, inp, outp, lcn, nr));
                    }
                    let gv = scalar_div(scalar_sub(c1, cost), eps);
                    let g = gradient.weight_mut(i);
                    g.set_at(row, col, gv);
                    let w = self.weight_mut(i);
                    w.set_at(row, col, saved);
                    proof {
                        assert(self.wseqs() =~~= ws0);
                        assert(self.bseqs() =~~= bs0);
                    }
                    col += 1;
                }
                row += 1;
            }
            i += 1;
        }

        let mut i: usize = 0;
        while i < lc
            invariant
                self.wf(),
                old(self).wf(),
                gradient.wf(),
                self.same_arch(*old(self)),
                self.same_arch(*gradient),
                gradient.same_arch(*old(gradient)),
                lc == self.spec_layer_count(),
                i <= lc,
                df_input.wf(),
                df_output.wf(),
                df_input.spec_cols() == self.width(0),
                df_output.spec_cols() == self.width(lc as int),
                df_input.spec_rows() == df_output.spec_rows(),
                ws0 == old(self).wseqs(),
                bs0 == old(self).bseqs(),
                inp == df_input.mseq(),
                outp == df_output.mseq(),
                lcn == lc as nat,
                nr == df_input.spec_rows() as nat,
                self.wseqs() == ws0,
                self.bseqs() == bs0,
                cost == cost_bits(ws0, bs0, inp, outp, lcn, nr),
                forall|l: int| 0 <= l <= lc ==> #[trigger] gradient.spec_act(l) == old(gradient).spec_act(l),
                forall|k: int, r: int, c: int|
                    0 <= k < lc && 0 <= r < self.width(k) && 0 <= c < self.width(k + 1)
                        ==> #[trigger] gradient.spec_weight(k).at(r, c) == div_bits(
                            sub_bits(cost_bits(perturb_w_bits(ws0, k, r, c, eps), bs0, inp, outp, lcn, nr), cost),
                            eps,
                        ),
                forall|k: int, c: int|
                    0 <= k < i && 0 <= c < self.width(k + 1)
                        ==> #[trigger] gradient.spec_bias(k).at(0, c) == div_bits(
                            sub_bits(cost_bits(ws0, perturb_b_bits(bs0, k, c, eps), inp, outp, lcn, nr), cost),
                            eps,
                        ),
            decreases lc - i,
        {
            let n_cols = self.bias_ref(i).cols();
            let mut col: usize = 0;
            while col < n_cols
                invariant
                    self.wf(),
                    old(self).wf(),
                    gradient.wf(),
                    self.same_arch(*old(self)),
                    self.same_arch(*gradient),
                    gradient.same_arch(*old(gradient)),
                    lc == self.spec_layer_count(),
                    i < lc,
                    col <= n_cols,
                    n_cols == self.width(i as int + 1),
                    df_input.wf(),
                    df_output.wf(),
                    df_input.spec_cols() == self.width(0),
                    df_output.spec_cols() == self.width(lc as int),
                    df_input.spec_rows() == df_output.spec_rows(),
                    ws0 == old(self).wseqs(),
                    bs0 == old(self).bseqs(),
                    inp == df_input.mseq(),
                    outp == df_output.mseq(),
                    lcn == lc as nat,
                    nr == df_input.spec_rows() as nat,
                    self.wseqs() == ws0,
                    self.bseqs() == bs0,
                    cost == cost_bits(ws0, bs0, inp, outp, lcn, nr),
                    forall|l: int| 0 <= l <= lc ==> #[trigger] gradient.spec_act(l) == old(gradient).spec_act(l),
                    forall|k: int, r: int, c: int|
                        0 <= k < lc && 0 <= r < self.width(k) && 0 <= c < self.width(k + 1)
                            ==> #[trigger] gradient.spec_weight(k).at(r, c) == div_bits(
                                sub_bits(cost_bits(perturb_w_bits(ws0, k, r, c, eps), bs0, inp, outp, lcn, nr), cost),
                                eps,
                            ),
                    forall|k: int, c: int|
                        0 <= k < i && 0 <= c < self.width(k + 1)
                            ==> #[trigger] gradient.spec_bias(k).at(0, c) == div_bits(
                                sub_bits(cost_bits(ws0, perturb_b_bits(bs0, k, c, eps), inp, outp, lcn, nr), cost),
                                eps,
                            ),
                    forall|c: int|
                        0 <= c < col
                            ==> #[trigger] gradient.spec_bias(i as int).at(0, c) == div_bits(
                                sub_bits(cost_bits(ws0, perturb_b_bits(bs0, i as int, c, eps), inp, outp, lcn, nr), cost),
                                eps,
                            ),
                decreases n_cols - col,
            {
                let saved = self.bias_ref(i).get_at(0, col);
                let bumped = scalar_add(saved, eps);
                let b = self.bias_mut(i);
                b.set_at(0, col, bumped);
                proof {
                    assert(saved == bs0[i as int][col as int]);
                    assert(self.bseqs() =~~= perturb_b_bits(bs0, i as int, col as int, eps));
                    assert(self.wseqs() =~= ws0);
                }
                let c1 = self.cost(df_input, df_output);
                proof {
                    assert(c1 == cost_bits(ws0, perturb_b_bits(bs0, i as int, col as int, eps), inp, outp, lcn, nr));
                }
                let gv = scalar_div(scalar_sub(c1, cost), eps);
                let g = gradient.bias_mut(i);
                g.set_at(0, col, gv);
                let b = self.bias_mut(i);
                b.set_at(0, col, saved);
                proof {
                    assert(self.wseqs() =~~= ws0);
                    assert(self.bseqs() =~~= bs0);
                }
                col += 1;
            }
            i += 1;
        }
    }
}

impl NNArch {
    /// The delta rows, one per layer.
    pub open spec fn aseqs(self) -> Seq<Seq<u32>> {
        Seq::new((self.spec_layer_count() + 1) as nat, |l: int| self.act_row(l))
    }

    /// The backward sweep of one layer `l`: reads this network's activations
    /// and weights, and accumulates into `gradient`'s weight and bias cells
    /// of layer `l - 1` and its delta row `l - 1`.
    fn bp_backward_layer(&self, gradient: &mut NNArch, l: usize)
        requires
            self.wf(),
            old(gradient).wf(),
            self.same_arch(*old(gradient)),
            1 <= l <= self.spec_layer_count(),
        ensures
            final(gradient).wf(),
            final(gradient).same_arch(*old(gradient)),
            final(gradient).spec_layer_count() == old(gradient).spec_layer_count(),
            forall|k: int|
                #![trigger final(gradient).spec_weight(k)]
                #![trigger final(gradient).spec_bias(k)]
                0 <= k < old(gradient).spec_layer_count() && k != l - 1
                    ==> final(gradient).spec_weight(k) == old(gradient).spec_weight(k)
                        && final(gradient).spec_bias(k) == old(gradient).spec_bias(k),
            forall|k: int| 0 <= k <= old(gradient).spec_layer_count() && k != l - 1
                ==> #[trigger] final(gradient).spec_act(k) == old(gradient).spec_act(k),
            final(gradient).spec_weight(l - 1).mseq() == bp_cols_bits(
                old(gradient).spec_weight(l - 1).mseq(),
                old(gradient).bseqs()[l - 1],
                old(gradient).act_row(l - 1),
                old(gradient).act_row(l as int),
                self.act_row(l as int),
                self.act_row(l - 1),
                self.wseqs()[l - 1],
                self.width(l - 1) as nat,
                self.width(l as int) as nat,
            ).0,
            final(gradient).bseqs()[l - 1] == bp_cols_bits(
                old(gradient).spec_weight(l - 1).mseq(),
                old(gradient).bseqs()[l - 1],
                old(gradient).act_row(l - 1),
                old(gradient).act_row(l as int),
                self.act_row(l as int),
                self.act_row(l - 1),
                self.wseqs()[l - 1],
                self.width(l - 1) as nat,
                self.width(l as int) as nat,
            ).1,
            final(gradient).act_row(l - 1) == bp_cols_bits(
                old(gradient).spec_weight(l - 1).mseq(),
                old(gradient).bseqs()[l - 1],
                old(gradient).act_row(l - 1),
                old(gradient).act_row(l as int),
                self.act_row(l as int),
                self.act_row(l - 1),
                self.wseqs()[l - 1],
                self.width(l - 1) as nat,
                self.width(l as int) as nat,
            ).2,
    {
        let lm1 = l - 1;
        let n_out = self.act_ref(l).cols();
        let n_prev = self.act_ref(lm1).cols();
        let ghost gw0 = gradient.spec_weight(lm1 as int).mseq();
        let ghost gb0 = gradient.bseqs()[lm1 as int];
        let ghost ga0 = gradient.act_row(lm1 as int);
        let ghost ga_l = gradient.act_row(l as int);
        let ghost actl = self.act_row(l as int);
        let ghost actp = self.act_row(lm1 as int);
        let ghost w = self.wseqs()[lm1 as int];
        let ghost npn = n_prev as nat;

        let mut j: usize = 0;
        while j < n_out
            invariant
                self.wf(),
                gradient.wf(),
                old(gradient).wf(),
                self.same_arch(*gradient),
                gradient.same_arch(*old(gradient)),
                1 <= l <= self.spec_layer_count(),
                lm1 == l - 1,
                n_out == self.width(l as int),
                n_prev == self.width(lm1 as int),
                npn == n_prev as nat,
                j <= n_out,
                gw0 == old(gradient).spec_weight(lm1 as int).mseq(),
                gb0 == old(gradient).bseqs()[lm1 as int],
                ga0 == old(gradient).act_row(lm1 as int),
                ga_l == old(gradient).act_row(l as int),
                actl == self.act_row(l as int),
                actp == self.act_row(lm1 as int),
                w == self.wseqs()[lm1 as int],
                forall|k: int|
                    #![trigger gradient.spec_weight(k)]
                    #![trigger gradient.spec_bias(k)]
                    0 <= k < gradient.spec_layer_count() && k != lm1
                        ==> gradient.spec_weight(k) == old(gradient).spec_weight(k)
                            && gradient.spec_bias(k) == old(gradient).spec_bias(k),
                forall|k: int| 0 <= k <= gradient.spec_layer_count() && k != lm1
                    ==> #[trigger] gradient.spec_act(k) == old(gradient).spec_act(k),
                gradient.act_row(l as int) == ga_l,
                gradient.spec_weight(lm1 as int).mseq()
                    == bp_cols_bits(gw0, gb0, ga0, ga_l, actl, actp, w, npn, j as nat).0,
                gradient.bseqs()[lm1 as int]
                    == bp_cols_bits(gw0, gb0, ga0, ga_l, actl, actp, w, npn, j as nat).1,
                gradient.act_row(lm1 as int)
                    == bp_cols_bits(gw0, gb0, ga0, ga_l, actl, actp, w, npn, j as nat).2,
            decreases n_out - j,
        {
            let a = self.act_ref(l).get_at(0, j);
            let da = gradient.act_ref(l).get_at(0, j);
            proof {
                assert(a == actl[j as int]);
                assert(da == ga_l[j as int]);
            }
            let t = scalar_mul(scalar_mul(scalar_mul(F_TWO, da), a), scalar_sub(F_ONE, a));
            proof {
                assert(t == bp_term_bits(ga_l[j as int], actl[j as int]));
            }
            let ghost cols_j = bp_cols_bits(gw0, gb0, ga0, ga_l, actl, actp, w, npn, j as nat);
            let gb_cur = gradient.bias_ref(lm1).get_at(0, j);
            let gbm = gradient.bias_mut(lm1);
            gbm.set_at(0, j, scalar_add(gb_cur, t));
            proof {
                assert(gradient.bseqs()[lm1 as int] =~= cols_j.1.update(j as int, add_bits(cols_j.1[j as int], t)));
                assert(gradient.spec_weight(lm1 as int).mseq() == cols_j.0);
                assert(gradient.act_row(lm1 as int) == cols_j.2);
            }
            let ghost gbj = gradient.bseqs()[lm1 as int];

            let mut k: usize = 0;
            while k < n_prev
                invariant
                    self.wf(),
                    gradient.wf(),
                    old(gradient).wf(),
                    self.same_arch(*gradient),
                    gradient.same_arch(*old(gradient)),
                    1 <= l <= self.spec_layer_count(),
                    lm1 == l - 1,
                    n_out == self.width(l as int),
                    n_prev == self.width(lm1 as int),
                    npn == n_prev as nat,
                    j < n_out,
                    k <= n_prev,
                    actl == self.act_row(l as int),
                    actp == self.act_row(lm1 as int),
                    w == self.wseqs()[lm1 as int],
                    t == bp_term_bits(ga_l[j as int], actl[j as int]),
                    forall|kk: int|
                        #![trigger gradient.spec_weight(kk)]
                        #![trigger gradient.spec_bias(kk)]
                        0 <= kk < gradient.spec_layer_count() && kk != lm1
                            ==> gradient.spec_weight(kk) == old(gradient).spec_weight(kk)
                                && gradient.spec_bias(kk) == old(gradient).spec_bias(kk),
                    forall|kk: int| 0 <= kk <= gradient.spec_layer_count() && kk != lm1
                        ==> #[trigger] gradient.spec_act(kk) == old(gradient).spec_act(kk),
                    gradient.act_row(l as int) == ga_l,
                    gradient.bseqs()[lm1 as int] == gbj,
                    gradient.spec_weight(lm1 as int).mseq()
                        == bp_inner_bits(cols_j.0, cols_j.2, t, actp, w, j as int, k as nat).0,
                    gradient.act_row(lm1 as int)
                        == bp_inner_bits(cols_j.0, cols_j.2, t, actp, w, j as int, k as nat).1,
                decreases n_prev - k,
            {
                let ghost inner_k = bp_inner_bits(cols_j.0, cols_j.2, t, actp, w, j as int, k as nat);
                let pa = self.act_ref(lm1).get_at(0, k);
                let wv = self.weight_ref(lm1).get_at(k, j);
                proof {
                    assert(pa == actp[k as int]);
                    assert(wv == w[k as int][j as int]);
                }
                let gw_cur = gradient.weight_ref(lm1).get_at(k, j);
                let gwm = gradient.weight_mut(lm1);
                gwm.set_at(k, j, scalar_add(gw_cur, scalar_mul(t, pa)));
                let ga_cur = gradient.act_ref(lm1).get_at(0, k);
                let gam = gradient.act_mut(lm1);
                gam.set_at(0, k, scalar_add(ga_cur, scalar_mul(t, wv)));
                proof {
                    let next = bp_inner_bits(cols_j.0, cols_j.2, t, actp, w, j as int, (k + 1) as nat);
                    assert(next.0 == inner_k.0.update(k as int, inner_k.0[k as int].update(j as int,
                        add_bits(inner_k.0[k as int][j as int], mul_bits(t, actp[k as int])))));
                    assert(next.1 == inner_k.1.update(k as int, add_bits(inner_k.1[k as int], mul_bits(t, w[k as int][j as int]))));
                    assert(gradient.spec_weight(lm1 as int).mseq() =~~= next.0);
                    assert(gradient.act_row(lm1 as int) =~= next.1);
                }
                k += 1;
            }
            proof {
                let cols_j1 = bp_cols_bits(gw0, gb0, ga0, ga_l, actl, actp, w, npn, (j + 1) as nat);
                assert(cols_j1.0 == bp_inner_bits(cols_j.0, cols_j.2, bp_term_bits(ga_l[j as int], actl[j as int]), actp, w, j as int, npn).0);
                assert(cols_j1.1 == cols_j.1.update(j as int, add_bits(cols_j.1[j as int], bp_term_bits(ga_l[j as int], actl[j as int]))));
                assert(cols_j1.2 == bp_inner_bits(cols_j.0, cols_j.2, bp_term_bits(ga_l[j as int], actl[j as int]), actp, w, j as int, npn).1);
            }
            j += 1;
        }
    }
}

impl NNArch {
    /// The analytic backpropagation gradient: `gradient` is fully zeroed,
    /// every sample row is forward-evaluated and swept backward through the
    /// layers (reusing `gradient`'s activation rows as per-sample delta
    /// buffers), and the accumulated weight and bias gradients are divided by
    /// the number of sample rows once, after the sample loop, so every sample
    /// contributes with the same weight to the mean.
    pub fn backprop(&mut self, gradient: &mut NNArch, df_input: &NNMatrix, df_output: &NNMatrix)
        requires
            old(self).wf(),
            old(gradient).wf(),
            old(self).same_arch(*old(gradient)),
            df_input.wf(),
            df_output.wf(),
            df_input.spec_cols() == old(self).width(0),
            df_output.spec_cols() == old(self).width(old(self).spec_layer_count()),
            df_input.spec_rows() == df_output.spec_rows(),
        ensures
            final(self).wf(),
            final(self).same_arch(*old(self)),
            final(self).spec_layer_count() == old(self).spec_layer_count(),
            final(self).wseqs() == old(self).wseqs(),
            final(self).bseqs() == old(self).bseqs(),
            df_input.spec_rows() > 0 ==> final(self).act_row(0)
                == df_input.mseq()[df_input.spec_rows() - 1],
            forall|l: int|
                #![trigger final(self).spec_act(l)]
                df_input.spec_rows() > 0 && 1 <= l <= old(self).spec_layer_count()
                    ==> final(self).act_row(l) == act_after_bits(
                        old(self).wseqs(),
                        old(self).bseqs(),
                        df_input.mseq()[df_input.spec_rows() - 1],
                        l as nat,
                    ),
            final(gradient).wf(),
            final(gradient).same_arch(*old(gradient)),
            final(gradient).spec_layer_count() == old(gradient).spec_layer_count(),
            final(gradient).aseqs() == bp_samples_bits(
                old(self).wseqs(),
                old(self).bseqs(),
                df_input.mseq(),
                df_output.mseq(),
                old(self).spec_layer_count() as nat,
                df_input.spec_rows() as nat,
            ).2,
            forall|i: int, r: int, c: int|
                0 <= i < old(self).spec_layer_count() && 0 <= r < old(self).width(i)
                    && 0 <= c < old(self).width(i + 1)
                    ==> #[trigger] final(gradient).spec_weight(i).at(r, c) == (if df_input.spec_rows() > 0 {
                        div_bits(
                            bp_samples_bits(
                                old(self).wseqs(),
                                old(self).bseqs(),
                                df_input.mseq(),
                                df_output.mseq(),
                                old(self).spec_layer_count() as nat,
                                df_input.spec_rows() as nat,
                            ).0[i][r][c],
                            from_uint_bits(df_input.spec_rows() as u64),
                        )
                    } else {
                        F_ZERO
                    }),
            forall|i: int, c: int|
                0 <= i < old(self).spec_layer_count() && 0 <= c < old(self).width(i + 1)
                    ==> #[trigger] final(gradient).spec_bias(i).at(0, c) == (if df_input.spec_rows() > 0 {
                        div_bits(
                            bp_samples_bits(
                                old(self).wseqs(),
                                old(self).bseqs(),
                                df_input.mseq(),
                                df_output.mseq(),
                                old(self).spec_layer_count() as nat,
                                df_input.spec_rows() as nat,
                            ).1[i][c],
                            from_uint_bits(df_input.spec_rows() as u64),
                        )
                    } else {
                        F_ZERO
                    }),
    {
        let ghost ws0 = old(self).wseqs();
        let ghost bs0 = old(self).bseqs();
        let ghost inp = df_input.mseq();
        let ghost outp = df_output.mseq();
        let ghost lcn = old(self).spec_layer_count() as nat;
        let ghost nr = df_input.spec_rows() as nat;

        let lc = self.layer_count();
        let sample_rows = df_input.rows();
        let out_cols = df_output.cols();

        gradient.zeroed();
        proof {
            assert(self.wseqs() =~= ws0);
            assert(self.bseqs() =~= bs0);
            assert(zero_stack(old(gradient).wseqs()) =~~= zero_stack(ws0));
            assert(zero_grid(old(gradient).bseqs()) =~~= zero_grid(bs0));
            assert(zero_acts(old(gradient).wseqs(), old(gradient).bseqs(), old(gradient).spec_layer_count() as nat)
                =~~= zero_acts(ws0, bs0, lcn));
        }

        let mut s: usize = 0;
        while s < sample_rows
            invariant
                self.wf(),
                old(self).wf(),
                gradient.wf(),
                old(gradient).wf(),
                self.same_arch(*old(self)),
                self.same_arch(*gradient),
                gradient.same_arch(*old(gradient)),
                lc == self.spec_layer_count(),
                s <= sample_rows,
                df_input.wf(),
                df_output.wf(),
                df_input.spec_cols() == self.width(0),
                df_output.spec_cols() == self.width(lc as int),
                df_input.spec_rows() == df_output.spec_rows(),
                df_input.spec_rows() == sample_rows,
                df_output.spec_cols() == out_cols,
                ws0 == old(self).wseqs(),
                bs0 == old(self).bseqs(),
                inp == df_input.mseq(),
                outp == df_output.mseq(),
                lcn == lc as nat,
                nr == sample_rows as nat,
                self.wseqs() == ws0,
                self.bseqs() == bs0,
                s > 0 ==> self.act_row(0) == inp[s - 1],
                forall|l: int|
                    #![trigger self.spec_act(l)]
                    s > 0 && 1 <= l <= lc
                        ==> self.act_row(l) == act_after_bits(ws0, bs0, inp[s - 1], l as nat),
                gradient.wseqs() == bp_samples_bits(ws0, bs0, inp, outp, lcn, s as nat).0,
                gradient.bseqs() == bp_samples_bits(ws0, bs0, inp, outp, lcn, s as nat).1,
                gradient.aseqs() == bp_samples_bits(ws0, bs0, inp, outp, lcn, s as nat).2,
            decreases sample_rows - s,
        {
            let ghost gw_s = bp_samples_bits(ws0, bs0, inp, outp, lcn, s as nat).0;
            let ghost gb_s = bp_samples_bits(ws0, bs0, inp, outp, lcn, s as nat).1;
            let ghost acts_s = Seq::new((lcn + 1) as nat, |l: int| act_after_bits(ws0, bs0, inp[s as int], l as nat));
            let ghost gal0_s = Seq::new((lcn + 1) as nat, |l: int| Seq::new(acts_s[l].len(), |j: int| F_ZERO));
            let ghost seeded_s = gal0_s.update(lcn as int, Seq::new(outp[s as int].len(), |c: int| sub_bits(acts_s[lcn as int][c], outp[s as int][c])));

            self.stage_input(df_input, s);
            proof {
                assert(self.act_row(0) == inp[s as int]);
                assert(self.wseqs() =~= ws0);
                assert(self.bseqs() =~= bs0);
            }
            self.forward();
            proof {
                assert(self.wseqs() =~= ws0);
                assert(self.bseqs() =~= bs0);
                assert forall|l: int|
                    #![trigger self.spec_act(l)]
                    0 <= l <= lc implies self.act_row(l) == acts_s[l] by {
                    assert(self.act_row(0) == act_after_bits(ws0, bs0, inp[s as int], 0));
                }
            }

            let mut ll: usize = 0;
            while ll < lc
                invariant
                    self.wf(),
                    gradient.wf(),
                    old(gradient).wf(),
                    self.same_arch(*gradient),
                    gradient.same_arch(*old(gradient)),
                    lc == self.spec_layer_count(),
                    ll <= lc,
                    gradient.wseqs() == gw_s,
                    gradient.bseqs() == gb_s,
                    forall|l: int|
                        #![trigger gradient.spec_act(l)]
                        0 <= l < ll
                            ==> forall|c: int| 0 <= c < gradient.width(l)
                                ==> #[trigger] gradient.spec_act(l).at(0, c) == F_ZERO,
                decreases lc - ll,
            {
                let g = gradient.act_mut(ll);
                g.zeroed();
                proof {
                    assert(gradient.wseqs() =~= gw_s);
                    assert(gradient.bseqs() =~= gb_s);
                }
                ll += 1;
            }
            let g_last = gradient.act_mut(lc);
            g_last.zeroed();
            proof {
                assert(gradient.wseqs() =~= gw_s);
                assert(gradient.bseqs() =~= gb_s);
                assert(gradient.aseqs() =~~= gal0_s);
            }

            let mut sc: usize = 0;
            while sc < out_cols
                invariant
                    self.wf(),
                    gradient.wf(),
                    old(gradient).wf(),
                    self.same_arch(*gradient),
                    gradient.same_arch(*old(gradient)),
                    lc == self.spec_layer_count(),
                    sc <= out_cols,
                    s < sample_rows,
                    df_output.wf(),
                    df_output.spec_cols() == out_cols,
                    df_output.spec_cols() == self.width(lc as int),
                    df_input.spec_rows() == df_output.spec_rows(),
                    df_input.spec_rows() == sample_rows,
                    outp == df_output.mseq(),
                    forall|l: int|
                        #![trigger self.spec_act(l)]
                        0 <= l <= lc ==> self.act_row(l) == acts_s[l],
                    gradient.wseqs() == gw_s,
                    gradient.bseqs() == gb_s,
                    forall|l: int|
                        #![trigger gradient.spec_act(l)]
                        0 <= l < lc
                            ==> forall|c: int| 0 <= c < gradient.width(l)
                                ==> #[trigger] gradient.spec_act(l).at(0, c) == F_ZERO,
                    forall|c: int| sc <= c < out_cols ==> #[trigger] gradient.spec_act(lc as int).at(0, c) == F_ZERO,
                    forall|c: int| 0 <= c < sc
                        ==> #[trigger] gradient.spec_act(lc as int).at(0, c)
                            == sub_bits(acts_s[lc as int][c], outp[s as int][c]),
                decreases out_cols - sc,
            {
                let actual = self.act_ref(lc).get_at(0, sc);
                let expected = df_output.get_at(s, sc);
                let g = gradient.act_mut(lc);
                g.set_at(0, sc, scalar_sub(actual, expected));
                proof {
                    assert(gradient.wseqs() =~= gw_s);
                    assert(gradient.bseqs() =~= gb_s);
                }
                sc += 1;
            }
            proof {
                assert(gradient.aseqs() =~~= seeded_s);
            }

            let mut l: usize = lc;
            while l >= 1
                invariant
                    self.wf(),
                    old(self).wf(),
                    gradient.wf(),
                    old(gradient).wf(),
                    self.same_arch(*old(self)),
                    self.same_arch(*gradient),
                    gradient.same_arch(*old(gradient)),
                    lc == self.spec_layer_count(),
                    lcn == lc as nat,
                    l <= lc,
                    ws0 == old(self).wseqs(),
                    bs0 == old(self).bseqs(),
                    self.wseqs() == ws0,
                    self.bseqs() == bs0,
                    acts_s == Seq::new((lcn + 1) as nat, |ll: int| act_after_bits(ws0, bs0, inp[s as int], ll as nat)),
                    acts_s[0].len() == self.width(0),
                    forall|k: int|
                        #![trigger self.spec_act(k)]
                        0 <= k <= lc ==> self.act_row(k) == acts_s[k],
                    gradient.wseqs() == bp_layers_bits(gw_s, gb_s, seeded_s, acts_s, ws0, lcn, (lc - l) as nat).0,
                    gradient.bseqs() == bp_layers_bits(gw_s, gb_s, seeded_s, acts_s, ws0, lcn, (lc - l) as nat).1,
                    gradient.aseqs() == bp_layers_bits(gw_s, gb_s, seeded_s, acts_s, ws0, lcn, (lc - l) as nat).2,
                decreases l,
            {
                let ghost m0 = (lc - l) as nat;
                let ghost layers_m = bp_layers_bits(gw_s, gb_s, seeded_s, acts_s, ws0, lcn, m0);
                proof {
                    assert(gradient.spec_weight(l - 1).mseq() == layers_m.0[l - 1]);
                    assert(gradient.bseqs()[l - 1] == layers_m.1[l - 1]);
                    assert(gradient.act_row(l - 1) == layers_m.2[l - 1]);
                    assert(gradient.act_row(l as int) == layers_m.2[l as int]);
                    assert(self.act_row(l as int) == acts_s[l as int]);
                    assert(self.act_row(l - 1) == acts_s[l - 1]);
                    assert(self.wseqs()[l - 1] == ws0[l - 1]);
                    assert(acts_s[l as int] == act_after_bits(ws0, bs0, inp[s as int], l as nat));
                    assert(bs0[l - 1] == old(self).spec_bias(l - 1).mseq()[0]);
                    assert(old(self).spec_bias(l - 1).spec_rows() == 1);
                    assert(bs0[l - 1].len() == old(self).width(l as int));
                    assert(acts_s[l as int].len() == self.width(l as int));
                    if l >= 2 {
                        assert(acts_s[l - 1] == act_after_bits(ws0, bs0, inp[s as int], (l - 1) as nat));
                        assert(bs0[l - 2].len() == old(self).width(l - 1));
                    }
                    assert(acts_s[l - 1].len() == self.width(l - 1));
                }
                self.bp_backward_layer(gradient, l);
                proof {
                    let layers_m1 = bp_layers_bits(gw_s, gb_s, seeded_s, acts_s, ws0, lcn, (m0 + 1) as nat);
                    assert(lcn - ((m0 + 1) as nat) + 1 == l as int);
                    let swept = bp_cols_bits(
                        layers_m.0[l - 1],
                        layers_m.1[l - 1],
                        layers_m.2[l - 1],
                        layers_m.2[l as int],
                        acts_s[l as int],
                        acts_s[l - 1],
                        ws0[l - 1],
                        acts_s[l - 1].len(),
                        acts_s[l as int].len(),
                    );
                    assert(layers_m1.0 == layers_m.0.update(l - 1, swept.0));
                    assert(layers_m1.1 == layers_m.1.update(l - 1, swept.1));
                    assert(layers_m1.2 == layers_m.2.update(l - 1, swept.2));
                    assert(gradient.wseqs() =~~= layers_m1.0);
                    assert(gradient.bseqs() =~~= layers_m1.1);
                    assert(gradient.aseqs() =~~= layers_m1.2);
                    assert((lc - (l - 1)) as nat == (m0 + 1) as nat);
                }
                l -= 1;
            }
            proof {
                let fin = bp_layers_bits(gw_s, gb_s, seeded_s, acts_s, ws0, lcn, lcn);
                assert(gradient.wseqs() == fin.0);
                assert(bp_sample_bits(gw_s, gb_s, ws0, bs0, inp[s as int], outp[s as int], lcn).0 == fin.0);
                assert(bp_sample_bits(gw_s, gb_s, ws0, bs0, inp[s as int], outp[s as int], lcn).1 == fin.1);
                assert(bp_sample_bits(gw_s, gb_s, ws0, bs0, inp[s as int], outp[s as int], lcn).2 == fin.2);
                assert(bp_samples_bits(ws0, bs0, inp, outp, lcn, (s + 1) as nat).0
                    == bp_sample_bits(gw_s, gb_s, ws0, bs0, inp[s as int], outp[s as int], lcn).0);
            }
            s += 1;
        }

        if sample_rows > 0 {
            let ghost raw_w = bp_samples_bits(ws0, bs0, inp, outp, lcn, nr).0;
            let ghost raw_b = bp_samples_bits(ws0, bs0, inp, outp, lcn, nr).1;
            let ghost raw_a = bp_samples_bits(ws0, bs0, inp, outp, lcn, nr).2;
            let n = scalar_of_uint(sample_rows as u64);
            let mut i: usize = 0;
            while i < lc
                invariant
                    gradient.wf(),
                    old(gradient).wf(),
                    gradient.same_arch(*old(gradient)),
                    self.same_arch(*gradient),
                    self.wf(),
                    lc == self.spec_layer_count(),
                    i <= lc,
                    n == crate::scalar::from_uint_bits(sample_rows as u64),
                    nr == sample_rows as nat,
                    gradient.bseqs() == raw_b,
                    gradient.aseqs() == raw_a,
                    forall|k: int, r: int, c: int|
                        0 <= k < i && 0 <= r < gradient.width(k) && 0 <= c < gradient.width(k + 1)
                            ==> #[trigger] gradient.spec_weight(k).at(r, c) == div_bits(raw_w[k][r][c], n),
                    forall|k: int, r: int, c: int|
                        i <= k < lc && 0 <= r < gradient.width(k) && 0 <= c < gradient.width(k + 1)
                            ==> #[trigger] gradient.spec_weight(k).at(r, c) == raw_w[k][r][c],
                decreases lc - i,
            {
                let n_rows = gradient.weight_ref(i).rows();
                let n_cols = gradient.weight_ref(i).cols();
                let mut row: usize = 0;
                while row < n_rows
                    invariant
                        gradient.wf(),
                        old(gradient).wf(),
                        gradient.same_arch(*old(gradient)),
                        self.same_arch(*gradient),
                        self.wf(),
                        lc == self.spec_layer_count(),
                        i < lc,
                        row <= n_rows,
                        n_rows == gradient.width(i as int),
                        n_cols == gradient.width(i as int + 1),
                        gradient.bseqs() == raw_b,
                        gradient.aseqs() == raw_a,
                        forall|k: int, r: int, c: int|
                            0 <= k < i && 0 <= r < gradient.width(k) && 0 <= c < gradient.width(k + 1)
                                ==> #[trigger] gradient.spec_weight(k).at(r, c) == div_bits(raw_w[k][r][c], n),
                        forall|k: int, r: int, c: int|
                            i < k < lc && 0 <= r < gradient.width(k) && 0 <= c < gradient.width(k + 1)
                                ==> #[trigger] gradient.spec_weight(k).at(r, c) == raw_w[k][r][c],
                        forall|r: int, c: int|
                            0 <= r < row && 0 <= c < n_cols
                                ==> #[trigger] gradient.spec_weight(i as int).at(r, c) == div_bits(raw_w[i as int][r][c], n),
                        forall|r: int, c: int|
                            row <= r < n_rows && 0 <= c < n_cols
                                ==> #[trigger] gradient.spec_weight(i as int).at(r, c) == raw_w[i as int][r][c],
                    decreases n_rows - row,
                {
                    let mut col: usize = 0;
                    while col < n_cols
                        invariant
                            gradient.wf(),
                            old(gradient).wf(),
                            gradient.same_arch(*old(gradient)),
                            self.same_arch(*gradient),
                            self.wf(),
                            lc == self.spec_layer_count(),
                            i < lc,
                            row < n_rows,
                            col <= n_cols,
                            n_rows == gradient.width(i as int),
                            n_cols == gradient.width(i as int + 1),
                            gradient.bseqs() == raw_b,
                            gradient.aseqs() == raw_a,
                            forall|k: int, r: int, c: int|
                                0 <= k < i && 0 <= r < gradient.width(k) && 0 <= c < gradient.width(k + 1)
                                    ==> #[trigger] gradient.spec_weight(k).at(r, c) == div_bits(raw_w[k][r][c], n),
                            forall|k: int, r: int, c: int|
                                i < k < lc && 0 <= r < gradient.width(k) && 0 <= c < gradient.width(k + 1)
                                    ==> #[trigger] gradient.spec_weight(k).at(r, c) == raw_w[k][r][c],
                            forall|r: int, c: int|
                                0 <= r < row && 0 <= c < n_cols
                                    ==> #[trigger] gradient.spec_weight(i as int).at(r, c) == div_bits(raw_w[i as int][r][c], n),
                            forall|c: int|
                                0 <= c < col
                                    ==> #[trigger] gradient.spec_weight(i as int).at(row as int, c)
                                        == div_bits(raw_w[i as int][row as int][c], n),
                            forall|c: int|
                                col <= c < n_cols
                                    ==> #[trigger] gradient.spec_weight(i as int).at(row as int, c) == raw_w[i as int][row as int][c],
                            forall|r: int, c: int|
                                row < r < n_rows && 0 <= c < n_cols
                                    ==> #[trigger] gradient.spec_weight(i as int).at(r, c) == raw_w[i as int][r][c],
                        decreases n_cols - col,
                    {
                        let cur = gradient.weight_ref(i).get_at(row, col);
                        let g = gradient.weight_mut(i);
                        g.set_at(row, col, scalar_div(cur, n));
                        proof {
                            assert(gradient.bseqs() =~= raw_b);
                            assert(gradient.aseqs() =~= raw_a);
                        }
                        col += 1;
                    }
                    row += 1;
                }
                i += 1;
            }
            let mut i: usize = 0;
            while i < lc
                invariant
                    gradient.wf(),
                    old(gradient).wf(),
                    gradient.same_arch(*old(gradient)),
                    self.same_arch(*gradient),
                    self.wf(),
                    lc == self.spec_layer_count(),
                    i <= lc,
                    n == crate::scalar::from_uint_bits(sample_rows as u64),
                    nr == sample_rows as nat,
                    gradient.aseqs() == raw_a,
                    forall|k: int, r: int, c: int|
                        0 <= k < lc && 0 <= r < gradient.width(k) && 0 <= c < gradient.width(k + 1)
                            ==> #[trigger] gradient.spec_weight(k).at(r, c) == div_bits(raw_w[k][r][c], n),
                    forall|k: int, c: int|
                        0 <= k < i && 0 <= c < gradient.width(k + 1)
                            ==> #[trigger] gradient.spec_bias(k).at(0, c) == div_bits(raw_b[k][c], n),
                    forall|k: int, c: int|
                        i <= k < lc && 0 <= c < gradient.width(k + 1)
                            ==> #[trigger] gradient.spec_bias(k).at(0, c) == raw_b[k][c],
                decreases lc - i,
            {
                let n_cols = gradient.bias_ref(i).cols();
                let mut col: usize = 0;
                while col < n_cols
                    invariant
                        gradient.wf(),
                        old(gradient).wf(),
                        gradient.same_arch(*old(gradient)),
                        self.same_arch(*gradient),
                        self.wf(),
                        lc == self.spec_layer_count(),
                        i < lc,
                        col <= n_cols,
                        n_cols == gradient.width(i as int + 1),
                        gradient.aseqs() == raw_a,
                        forall|k: int, r: int, c: int|
                            0 <= k < lc && 0 <= r < gradient.width(k) && 0 <= c < gradient.width(k + 1)
                                ==> #[trigger] gradient.spec_weight(k).at(r, c) == div_bits(raw_w[k][r][c], n),
                        forall|k: int, c: int|
                            0 <= k < i && 0 <= c < gradient.width(k + 1)
                                ==> #[trigger] gradient.spec_bias(k).at(0, c) == div_bits(raw_b[k][c], n),
                        forall|c: int|
                            0 <= c < col
                                ==> #[trigger] gradient.spec_bias(i as int).at(0, c) == div_bits(raw_b[i as int][c], n),
                        forall|c: int|
                            col <= c < n_cols
                                ==> #[trigger] gradient.spec_bias(i as int).at(0, c) == raw_b[i as int][c],
                        forall|k: int, c: int|
                            i < k < lc && 0 <= c < gradient.width(k + 1)
                                ==> #[trigger] gradient.spec_bias(k).at(0, c) == raw_b[k][c],
                    decreases n_cols - col,
                {
                    let cur = gradient.bias_ref(i).get_at(0, col);
                    let g = gradient.bias_mut(i);
                    g.set_at(0, col, scalar_div(cur, n));
                    proof {
                        assert(gradient.aseqs() =~= raw_a);
                    }
                    col += 1;
                }
                i += 1;
            }
            proof {
                assert forall|k: int, r: int, c: int|
                    0 <= k < old(self).spec_layer_count() && 0 <= r < old(self).width(k)
                        && 0 <= c < old(self).width(k + 1)
                        implies #[trigger] gradient.spec_weight(k).at(r, c)
                            == div_bits(raw_w[k][r][c], from_uint_bits(df_input.spec_rows() as u64)) by {
                    assert(old(self).width(k) == gradient.width(k));
                    assert(old(self).width(k + 1) == gradient.width(k + 1));
                }
                assert forall|k: int, c: int|
                    0 <= k < old(self).spec_layer_count() && 0 <= c < old(self).width(k + 1)
                        implies #[trigger] gradient.spec_bias(k).at(0, c)
                            == div_bits(raw_b[k][c], from_uint_bits(df_input.spec_rows() as u64)) by {
                    assert(old(self).width(k + 1) == gradient.width(k + 1));
                }
            }
        } else {
            proof {
                assert(gradient.wseqs() == zero_stack(ws0));
                assert(gradient.bseqs() == zero_grid(bs0));
                assert forall|k: int, r: int, c: int|
                    0 <= k < old(self).spec_layer_count() && 0 <= r < old(self).width(k)
                        && 0 <= c < old(self).width(k + 1)
                        implies #[trigger] gradient.spec_weight(k).at(r, c) == F_ZERO by {
                    assert(old(self).width(k) == gradient.width(k));
                    assert(old(self).width(k + 1) == gradient.width(k + 1));
                    assert(ws0[k].len() == old(self).width(k));
                    assert(ws0[k][r].len() == old(self).width(k + 1));
                    assert(gradient.spec_weight(k).at(r, c) == zero_stack(ws0)[k][r][c]);
                }
                assert forall|k: int, c: int|
                    0 <= k < old(self).spec_layer_count() && 0 <= c < old(self).width(k + 1)
                        implies #[trigger] gradient.spec_bias(k).at(0, c) == F_ZERO by {
                    assert(old(self).width(k + 1) == gradient.width(k + 1));
                    assert(bs0[k].len() == old(self).width(k + 1));
                    assert(gradient.spec_bias(k).at(0, c) == zero_grid(bs0)[k][c]);
                }
            }
        }
    }
}

/// Forward propagation is deterministic and free of hidden state: the
/// activation row a forward pass leaves at any layer is a function of the
/// weights, the biases and the staged input alone, so two networks that
/// agree on those — and in particular two passes over one network — leave
/// identical activation rows at every layer.
pub proof fn lemma_forward_deterministic(a: NNArch, b: NNArch, l: int)
    requires
        a.wseqs() == b.wseqs(),
        a.bseqs() == b.bseqs(),
        a.act_row(0) == b.act_row(0),
        0 <= l,
    ensures
        act_after_bits(a.wseqs(), a.bseqs(), a.act_row(0), l as nat)
            == act_after_bits(b.wseqs(), b.bseqs(), b.act_row(0), l as nat),
{
}

/// The dot product of a one-row matrix's row with a weight column equals the
/// dot product taken on the matrix itself.
proof fn lemma_row_dot(a: Seq<Seq<u32>>, w: Seq<Seq<u32>>, j: int, k: nat)
    ensures
        row_dot_bits(a[0], w, j, k) == crate::matrix::dot_bits(a, w, 0, j, k),
    decreases k,
{
    if k > 0 {
        lemma_row_dot(a, w, j, (k - 1) as nat);
    }
}

} // verus!
