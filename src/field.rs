use vstd::prelude::*;

verus! {

/// A two-dimensional finite-difference vector of a scalar field cell.
#[derive(Clone, Copy, Debug, PartialEq, Eq, Structural)]
pub struct Grad {
    pub x: i64,
    pub y: i64,
}

/// The cell `(i, j)` of a row-major grid of width `w` sits at `i + j * w`.
proof fn lemma_cell_index(i: int, j: int, w: int)
    requires
        0 <= i < w,
        0 <= j,
    ensures
        (i + j * w) % w == i,
        (i + j * w) / w == j,
{
    vstd::arithmetic::div_mod::lemma_fundamental_div_mod_converse(i + j * w, w, j, i);
}

/// `data` holds, for every cell `k` of a `w` by `h` row-major grid, a value
/// that `sample` may return at column `k % w` and row `k / w`.
pub open spec fn sampled<F: Fn(usize, usize) -> i32>(sample: F, w: nat, h: nat, data: Seq<i32>) -> bool {
    &&& data.len() == w * h
    &&& forall|k: int|
        0 <= k < w * h ==> #[trigger] sample.ensures(
            ((k % (w as int)) as usize, (k / (w as int)) as usize),
            data[k],
        )
}

/// A sampler whose result depends on its arguments alone.
pub open spec fn deterministic<F: Fn(usize, usize) -> i32>(sample: F) -> bool {
    forall|i: usize, j: usize, a: i32, b: i32|
        #![trigger sample.ensures((i, j), a), sample.ensures((i, j), b)]
        sample.ensures((i, j), a) && sample.ensures((i, j), b) ==> a == b
}

/// Samples a `width` by `height` grid in row-major order: the value of
/// column `i`, row `j` is `sample(i, j)` and is stored at `i + j * width`.
pub fn sample_grid<F: Fn(usize, usize) -> i32>(width: usize, height: usize, sample: F) -> (data: Vec<i32>)
    requires
        width * height <= usize::MAX,
        forall|i: usize, j: usize| i < width && j < height ==> #[trigger] sample.requires((i, j)),
    ensures
        sampled(sample, width as nat, height as nat, data@),
{
    let mut data: Vec<i32> = Vec::new();
    let mut j: usize = 0;
    while j < height
        invariant
            j <= height,
            width * height <= usize::MAX,
            forall|i: usize, j: usize| i < width && j < height ==> #[trigger] sample.requires((i, j)),
            data@.len() == j * width,
            forall|k: int|
                0 <= k < j * width ==> #[trigger] sample.ensures(
                    ((k % (width as int)) as usize, (k / (width as int)) as usize),
                    data@[k],
                ),
        decreases height - j,
    {
        let mut i: usize = 0;
        while i < width
            invariant
                i <= width,
                j < height,
                width * height <= usize::MAX,
                forall|i: usize, j: usize| i < width && j < height ==> #[trigger] sample.requires((i, j)),
                data@.len() == i + j * width,
                forall|k: int|
                    0 <= k < i + j * width ==> #[trigger] sample.ensures(
                        ((k % (width as int)) as usize, (k / (width as int)) as usize),
                        data@[k],
                    ),
            decreases width - i,
        {
            let v = sample(i, j);
            proof {
                lemma_cell_index(i as int, j as int, width as int);
            }
            data.push(v);
            i = i + 1;
        }
        proof {
            assert((j + 1) * width == width + j * width) by (nonlinear_arith);
        }
        j = j + 1;
    }
    proof {
        assert(j == height);
        assert(j * width == width * height) by (nonlinear_arith)
            requires
                j == height,
        ;
    }
    data
}

/// Sampling the same grid twice with a sampler whose result depends on its
/// arguments alone gives the same field.
pub proof fn lemma_sampling_deterministic<F: Fn(usize, usize) -> i32>(
    sample: F,
    w: nat,
    h: nat,
    a: Seq<i32>,
    b: Seq<i32>,
)
    requires
        deterministic(sample),
        sampled(sample, w, h, a),
        sampled(sample, w, h, b),
    ensures
        a == b,
{
    assert forall|k: int| 0 <= k < a.len() implies a[k] == b[k] by {
        let args = ((k % (w as int)) as usize, (k / (w as int)) as usize);
        assert(sample.ensures(args, a[k]));
        assert(sample.ensures(args, b[k]));
    }
    assert(a =~= b);
}

/// The horizontal component of the stencil at cell `k` of a `w`-wide grid:
/// `(left - centre) * -1` where a left neighbour exists, plus
/// `(right - centre) * +1` where a right neighbour exists.
pub open spec fn grad_x(data: Seq<i32>, w: int, k: int) -> int {
    let i = k % w;
    let c = data[k] as int;
    (if i > 0 { c - data[k - 1] } else { 0 }) + (if i + 1 < w { data[k + 1] - c } else { 0 })
}

/// The vertical component of the stencil at cell `k` of a `w` by `h` grid:
/// `(up - centre) * +1` where the row above exists, plus
/// `(down - centre) * -1` where the row below exists.
pub open spec fn grad_y(data: Seq<i32>, w: int, h: int, k: int) -> int {
    let j = k / w;
    let c = data[k] as int;
    (if j > 0 { data[k - w] - c } else { 0 }) + (if j + 1 < h { c - data[k + w] } else { 0 })
}

/// The gradient field of a `w` by `h` row-major scalar field: each cell gets
/// the sum over its existing orthogonal neighbours of the difference to the
/// centre times the unit vector towards that neighbour. Missing neighbours at
/// the edges contribute nothing.
pub open spec fn gradient_field(data: Seq<i32>, w: nat, h: nat) -> Seq<Grad> {
    Seq::new(
        w * h,
        |k: int| Grad { x: grad_x(data, w as int, k) as i64, y: grad_y(data, w as int, h as int, k) as i64 },
    )
}

/// Derives the gradient field of a `width` by `height` row-major scalar field.
pub fn derive_gradient(data: &Vec<i32>, width: usize, height: usize) -> (deriv: Vec<Grad>)
    requires
        data@.len() == width * height,
    ensures
        deriv@ == gradient_field(data@, width as nat, height as nat),
{
    let ghost w = width as int;
    let ghost h = height as int;
    let n = data.len();
    let mut deriv: Vec<Grad> = Vec::new();
    let mut j: usize = 0;
    let mut k: usize = 0;
    while j < height
        invariant
            j <= height,
            w == width,
            h == height,
            n == data@.len(),
            data@.len() == width * height,
            k == j * width,
            deriv@.len() == k,
            forall|m: int| 0 <= m < k ==> #[trigger] deriv@[m] == gradient_field(data@, width as nat, height as nat)[m],
        decreases height - j,
    {
        let mut i: usize = 0;
        while i < width
            invariant
                i <= width,
                j < height,
                w == width,
                h == height,
                n == data@.len(),
                data@.len() == width * height,
                k == i + j * width,
                deriv@.len() == k,
                forall|m: int| 0 <= m < k ==> #[trigger] deriv@[m] == gradient_field(data@, width as nat, height as nat)[m],
            decreases width - i,
        {
            proof {
                lemma_cell_index(i as int, j as int, w);
                assert(i + j * w < w * h) by (nonlinear_arith)
                    requires
                        0 <= i < w,
                        0 <= j < h,
                ;
                assert(j * w + w <= w * h) by (nonlinear_arith)
                    requires
                        0 <= j < h,
                        w >= 0,
                ;
                if j + 1 < h {
                    assert(i + j * w + w < w * h) by (nonlinear_arith)
                        requires
                            0 <= i < w,
                            0 <= j,
                            j + 2 <= h,
                    ;
                }
                if j > 0 {
                    assert(j * w >= w) by (nonlinear_arith)
                        requires
                            j >= 1,
                            w >= 0,
                    ;
                }
            }
            let c = data[k] as i64;
            let mut gx: i64 = 0;
            let mut gy: i64 = 0;
            if j > 0 {
                gy = gy + (data[k - width] as i64 - c);
            }
            if j + 1 < height {
                gy = gy + (c - data[k + width] as i64);
            }
            if i > 0 {
                gx = gx + (c - data[k - 1] as i64);
            }
            if i + 1 < width {
                gx = gx + (data[k + 1] as i64 - c);
            }
            deriv.push(Grad { x: gx, y: gy });
            i = i + 1;
            k = k + 1;
        }
        proof {
            assert((j + 1) * w == w + j * w) by (nonlinear_arith);
        }
        j = j + 1;
    }
    proof {
        assert(j * w == w * h) by (nonlinear_arith)
            requires
                j == h,
        ;
    }
    assert(deriv@ =~= gradient_field(data@, width as nat, height as nat));
    deriv
}

/// A constant field has a zero gradient at every cell.
pub proof fn lemma_constant_field_zero_gradient(data: Seq<i32>, w: nat, h: nat)
    requires
        data.len() == w * h,
        forall|a: int, b: int| 0 <= a < data.len() && 0 <= b < data.len() ==> data[a] == data[b],
    ensures
        forall|k: int| 0 <= k < w * h ==> #[trigger] gradient_field(data, w, h)[k] == (Grad { x: 0, y: 0 }),
{
    assert forall|k: int| 0 <= k < w * h implies #[trigger] gradient_field(data, w, h)[k] == (Grad { x: 0, y: 0 }) by {
        lemma_neighbours_in_grid(data, w as int, h as int, k);
    }
}

proof fn lemma_neighbours_in_grid(data: Seq<i32>, w: int, h: int, k: int)
    requires
        w >= 0,
        h >= 0,
        data.len() == w * h,
        0 <= k < w * h,
    ensures
        w > 0,
        0 <= k / w < h,
        k % w > 0 ==> 0 <= k - 1 && (k - 1) % w == k % w - 1 && (k - 1) / w == k / w,
        k % w + 1 < w ==> k + 1 < w * h && (k + 1) % w == k % w + 1 && (k + 1) / w == k / w,
        k / w > 0 ==> 0 <= k - w && (k - w) % w == k % w && (k - w) / w == k / w - 1,
        k / w + 1 < h ==> k + w < w * h && (k + w) % w == k % w && (k + w) / w == k / w + 1,
{
    assert(w > 0) by (nonlinear_arith)
        requires
            0 <= k < w * h,
            w >= 0,
            h >= 0,
    ;
    let i = k % w;
    let j = k / w;
    assert(k == i + j * w && 0 <= i < w && 0 <= j) by (nonlinear_arith)
        requires
            w > 0,
            k >= 0,
            i == k % w,
            j == k / w,
    ;
    assert(j < h) by (nonlinear_arith)
        requires
            k == i + j * w,
            0 <= i < w,
            k < w * h,
    ;
    assert(j * w + w <= w * h) by (nonlinear_arith)
        requires
            0 <= j < h,
            w > 0,
    ;
    assert((j - 1) * w == j * w - w && (j + 1) * w == j * w + w) by (nonlinear_arith);
    if i > 0 {
        vstd::arithmetic::div_mod::lemma_fundamental_div_mod_converse(k - 1, w, j, i - 1);
    }
    if i + 1 < w {
        vstd::arithmetic::div_mod::lemma_fundamental_div_mod_converse(k + 1, w, j, i + 1);
    }
    if j > 0 {
        vstd::arithmetic::div_mod::lemma_fundamental_div_mod_converse(k - w, w, j - 1, i);
    }
    if j + 1 < h {
        assert(j * w + 2 * w <= w * h) by (nonlinear_arith)
            requires
                j + 2 <= h,
                w > 0,
        ;
        vstd::arithmetic::div_mod::lemma_fundamental_div_mod_converse(k + w, w, j + 1, i);
    }
}

/// In a field that grows strictly from left to right and is the same in
/// every row (the value at cell `k` is `row[k % w]`), every cell of a grid at
/// least two columns wide has a gradient with a positive horizontal and a
/// zero vertical component.
pub proof fn lemma_rising_field_gradient_points_right(data: Seq<i32>, row: Seq<i32>, w: nat, h: nat)
    requires
        w >= 2,
        row.len() == w,
        data.len() == w * h,
        forall|k: int| 0 <= k < w * h ==> #[trigger] data[k] == row[k % (w as int)],
        forall|i: int| 0 <= i && i + 1 < w ==> #[trigger] row[i] < row[i + 1],
    ensures
        forall|k: int|
            0 <= k < w * h ==> #[trigger] gradient_field(data, w, h)[k].x > 0
                && gradient_field(data, w, h)[k].y == 0,
{
    assert forall|k: int| 0 <= k < w * h implies #[trigger] gradient_field(data, w, h)[k].x > 0
        && gradient_field(data, w, h)[k].y == 0 by {
        lemma_rising_cell(data, row, w as int, h as int, k);
    }
}

proof fn lemma_rising_cell(data: Seq<i32>, row: Seq<i32>, w: int, h: int, k: int)
    requires
        w >= 2,
        h >= 0,
        row.len() == w,
        data.len() == w * h,
        0 <= k < w * h,
        forall|k: int| 0 <= k < w * h ==> #[trigger] data[k] == row[k % w],
        forall|i: int| 0 <= i && i + 1 < w ==> #[trigger] row[i] < row[i + 1],
    ensures
        grad_x(data, w, k) > 0,
        grad_y(data, w, h, k) == 0,
{
    lemma_neighbours_in_grid(data, w, h, k);
    let i = k % w;
    let j = k / w;
    assert(data[k] == row[i]);
    if i > 0 {
        assert(data[k - 1] == row[i - 1]);
        assert(row[i - 1] < row[i]);
    }
    if i + 1 < w {
        assert(data[k + 1] == row[i + 1]);
        assert(row[i] < row[i + 1]);
    }
    if j > 0 {
        assert(data[k - w] == row[i]);
    }
    if j + 1 < h {
        assert(data[k + w] == row[i]);
    }
}

} // verus!
