//! The operators on matrices: `mat-transpose`, `mat-repmat`, `mat-mul`,
//! `mat-add` and `mat-tanh`. A matrix is a vector of rows, which are
//! vectors of one length.
use vstd::prelude::*;
use crate::distributions::{adds, is_tanh, multiplies, widen, widens_to, Numerics};
use crate::functions::numbers::number_of;
use crate::functions::{exactly, meets, Answer, Computation};
use crate::types::{
    all_numeric, fail, fails_with, lemma_vector_view, views, Float, RuntimeError, Val, Value,
};

verus! {

/// Whether `v` is a vector of `cols` values.
pub open spec fn is_row(v: Val, cols: nat) -> bool {
    v matches Val::Vector(r) && r.len() == cols
}

/// Whether the rows are vectors of one length, which is not zero, and there
/// is at least one row.
pub open spec fn rectangular(rows: Seq<Val>) -> bool {
    &&& rows.len() > 0
    &&& rows[0] matches Val::Vector(r0)
    &&& r0.len() > 0
    &&& forall|i: int| 0 <= i < rows.len() ==> is_row(#[trigger] rows[i], r0.len())
}

/// Whether every row holds numbers only.
pub open spec fn numeric_rows(rows: Seq<Val>) -> bool {
    forall|i: int| 0 <= i < rows.len() ==> all_numeric((#[trigger] rows[i])->Vector_0)
}

/// Whether `v` is a matrix: a vector of at least one row, the rows vectors of
/// one length that is not zero; a numeric matrix holds numbers only.
pub open spec fn is_matrix(v: Val, numeric: bool) -> bool {
    &&& v matches Val::Vector(rows)
    &&& rectangular(rows)
    &&& numeric ==> numeric_rows(rows)
}

/// The message of the error for a value that is no matrix, behind `prefix`;
/// `None` for a matrix.
pub open spec fn matrix_fault(prefix: Seq<char>, v: Val, numeric: bool) -> Option<Seq<char>> {
    match v {
        Val::Vector(rows) => if rows.len() == 0 {
            Some(prefix + "must have at least one element."@)
        } else if !rectangular(rows) {
            Some(prefix + "must be a rectangular vector of vectors that are not empty."@)
        } else if numeric && !numeric_rows(rows) {
            Some(prefix + "must hold numbers only."@)
        } else {
            None
        },
        _ => Some(prefix + "must be a vector of vectors."@),
    }
}

/// The number of rows of a matrix.
pub open spec fn rows_of(m: Val) -> nat {
    m->Vector_0.len()
}

/// The number of columns of a matrix.
pub open spec fn cols_of(m: Val) -> nat {
    m->Vector_0[0]->Vector_0.len()
}

/// The value in row `i` and column `j` of a matrix.
pub open spec fn cell(m: Val, i: int, j: int) -> Val {
    m->Vector_0[i]->Vector_0[j]
}

/// An error whose message is `text` behind `prefix`.
pub(crate) fn fail_with_prefix<T>(prefix: &str, text: &str) -> (r: Result<T, RuntimeError>)
    ensures
        fails_with(r, prefix@ + text@),
{
    let mut message = String::from_str(prefix);
    message.append(text);
    Err(RuntimeError::new(message))
}

/// Whether every value of the vector is a number.
pub(crate) fn holds_numbers_only(vals: &Vec<Value>) -> (r: bool)
    ensures
        r == all_numeric(views(vals@)),
{
    let ghost s = views(vals@);
    let mut i: usize = 0;
    while i < vals.len()
        invariant
            i <= vals.len(),
            s == views(vals@),
            forall|k: int| 0 <= k < i ==> (#[trigger] s[k]).is_numeric(),
        decreases vals.len() - i,
    {
        match &vals[i] {
            Value::Integer(_) => {},
            Value::Float(_) => {},
            _ => {
                assert(!s[i as int].is_numeric());
                return false;
            },
        }
        i += 1;
    }
    true
}

/// The numbers of rows and columns of a matrix; an error for a value that
/// is none.
pub fn check_matrix(prefix: &str, v: &Value, numeric: bool) -> (r: Result<
    (usize, usize),
    RuntimeError,
>)
    ensures
        match matrix_fault(prefix@, v@, numeric) {
            Some(message) => fails_with(r, message),
            None => r matches Ok(dims) && dims.0 == rows_of(v@) && dims.1 == cols_of(v@)
                && is_matrix(v@, numeric),
        },
{
    let rows = match v {
        Value::Vector(rows) => rows,
        _ => {
            return fail_with_prefix(prefix, "must be a vector of vectors.");
        },
    };
    proof {
        lemma_vector_view(*rows);
    }
    let ghost s = views(rows@);
    if rows.len() == 0 {
        return fail_with_prefix(prefix, "must have at least one element.");
    }
    let cols = match &rows[0] {
        Value::Vector(first_row) => {
            first_row.len()
        },
        _ => {
            return fail_with_prefix(
                prefix,
                "must be a rectangular vector of vectors that are not empty.",
            );
        },
    };
    if cols == 0 {
        return fail_with_prefix(
            prefix,
            "must be a rectangular vector of vectors that are not empty.",
        );
    }
    let mut i: usize = 0;
    while i < rows.len()
        invariant
            i <= rows.len(),
            s == views(rows@),
            v@ == Val::Vector(s),
            rows.len() > 0,
            s[0] is Vector,
            s[0]->Vector_0.len() == cols,
            cols > 0,
            forall|k: int| 0 <= k < i ==> is_row(#[trigger] s[k], cols as nat),
        decreases rows.len() - i,
    {
        match &rows[i] {
            Value::Vector(row) => {
                if row.len() != cols {
                    assert(!is_row(s[i as int], cols as nat));
                    return fail_with_prefix(
                        prefix,
                        "must be a rectangular vector of vectors that are not empty.",
                    );
                }
            },
            _ => {
                return fail_with_prefix(
                    prefix,
                    "must be a rectangular vector of vectors that are not empty.",
                );
            },
        }
        i += 1;
    }
    if numeric {
        let mut i: usize = 0;
        while i < rows.len()
            invariant
                i <= rows.len(),
                s == views(rows@),
                v@ == Val::Vector(s),
                rectangular(s),
                numeric,
                forall|k: int| 0 <= k < i ==> all_numeric((#[trigger] s[k])->Vector_0),
            decreases rows.len() - i,
        {
            match &rows[i] {
                Value::Vector(row) => {
                    proof {
                        lemma_vector_view(*row);
                    }
                    if !holds_numbers_only(row) {
                        assert(!all_numeric(s[i as int]->Vector_0));
                        return fail_with_prefix(prefix, "must hold numbers only.");
                    }
                },
                _ => {},
            }
            i += 1;
        }
    }
    Ok((rows.len(), cols))
}

/// The value in row `i` and column `j` of a matrix.
pub(crate) fn cell_of(m: &Value, i: usize, j: usize) -> (r: &Value)
    requires
        is_matrix(m@, false),
        i < rows_of(m@),
        j < cols_of(m@),
    ensures
        r@ == cell(m@, i as int, j as int),
{
    match m {
        Value::Vector(rows) => {
            proof {
                assert(is_row(views(rows@)[i as int], cols_of(m@)));
            }
            match &rows[i] {
                Value::Vector(row) => {
                    &row[j]
                },
                _ => m,
            }
        },
        _ => m,
    }
}

/// The transpose of a matrix: its rows are the matrix's columns.
pub open spec fn transposed(m: Val) -> Val {
    Val::Vector(
        Seq::new(
            cols_of(m),
            |j: int| Val::Vector(Seq::new(rows_of(m), |i: int| cell(m, i, j))),
        ),
    )
}

/// `mat-transpose`: a matrix; its transpose.
pub open spec fn transpose_spec(args: Seq<Val>) -> Result<Answer, Seq<char>> {
    if args.len() != 1 {
        Err("`mat-transpose` must have exactly 1 argument."@)
    } else {
        match matrix_fault("The argument of `mat-transpose` "@, args[0], false) {
            Some(message) => Err(message),
            None => Ok(Answer::Exactly(transposed(args[0]))),
        }
    }
}

/// `mat-transpose`.
pub fn matrix_transpose(vals: Vec<Value>) -> (r: Result<Value, RuntimeError>)
    ensures
        exactly(r, transpose_spec(views(vals@))),
{
    if vals.len() != 1 {
        return fail("`mat-transpose` must have exactly 1 argument.");
    }
    let m = &vals[0];
    let (rows, cols) = check_matrix("The argument of `mat-transpose` ", m, false)?;
    let mut out: Vec<Value> = Vec::new();
    let mut j: usize = 0;
    while j < cols
        invariant
            j <= cols,
            is_matrix(m@, false),
            rows == rows_of(m@),
            cols == cols_of(m@),
            out.len() == j,
            forall|jj: int|
                0 <= jj < j ==> (#[trigger] out@[jj])@ == Val::Vector(
                    Seq::new(rows as nat, |i: int| cell(m@, i, jj)),
                ),
        decreases cols - j,
    {
        let mut row: Vec<Value> = Vec::new();
        let mut i: usize = 0;
        while i < rows
            invariant
                i <= rows,
                j < cols,
                is_matrix(m@, false),
                rows == rows_of(m@),
                cols == cols_of(m@),
                row.len() == i,
                forall|ii: int| 0 <= ii < i ==> (#[trigger] row@[ii])@ == cell(m@, ii, j as int),
            decreases rows - i,
        {
            row.push(cell_of(m, i, j).clone());
            i += 1;
        }
        proof {
            lemma_vector_view(row);
            assert(views(row@) =~= Seq::new(rows as nat, |i: int| cell(m@, i, j as int)));
        }
        out.push(Value::Vector(row));
        j += 1;
    }
    proof {
        lemma_vector_view(out);
        assert(views(out@) =~= transposed(m@)->Vector_0);
    }
    Ok(Value::Vector(out))
}

/// The matrix tiled `r` times downward and `c` times to the right.
pub open spec fn repeated(m: Val, r: nat, c: nat) -> Val {
    Val::Vector(
        Seq::new(
            rows_of(m) * r,
            |i: int|
                Val::Vector(
                    Seq::new(
                        cols_of(m) * c,
                        |j: int| cell(m, i % (rows_of(m) as int), j % (cols_of(m) as int)),
                    ),
                ),
        ),
    )
}

/// `mat-repmat`: a matrix and two integers that are not negative; the matrix
/// tiled so many times downward and to the right. A result with more rows or
/// columns than the machine can count is an error.
pub open spec fn repeat_spec(args: Seq<Val>) -> Result<Answer, Seq<char>> {
    if args.len() != 3 {
        Err("`mat-repmat` must have exactly 3 arguments."@)
    } else {
        match matrix_fault("Argument 1 to `mat-repmat` "@, args[0], false) {
            Some(message) => Err(message),
            None => match (args[1], args[2]) {
                (Val::Integer(r), Val::Integer(c)) => if r < 0 || c < 0 {
                    Err("The counts given to `mat-repmat` must not be negative."@)
                } else if rows_of(args[0]) * r > usize::MAX || cols_of(args[0]) * c > usize::MAX {
                    Err("The result of `mat-repmat` is too large."@)
                } else {
                    Ok(Answer::Exactly(repeated(args[0], r as nat, c as nat)))
                },
                _ => Err("The counts given to `mat-repmat` must be integers."@),
            },
        }
    }
}

/// The product of a size and a count, where the machine can count so far.
pub(crate) fn scaled(size: usize, count: i64) -> (r: Option<usize>)
    requires
        count >= 0,
        size > 0,
    ensures
        size * count <= usize::MAX ==> r == Some((size * count) as usize),
        size * count > usize::MAX ==> r is None,
{
    if count as u64 > usize::MAX as u64 {
        assert(size * count > usize::MAX) by (nonlinear_arith)
            requires
                size >= 1,
                count > usize::MAX,
        ;
        None
    } else {
        size.checked_mul(count as usize)
    }
}

/// `mat-repmat`.
pub fn matrix_repeat(vals: Vec<Value>) -> (r: Result<Value, RuntimeError>)
    ensures
        exactly(r, repeat_spec(views(vals@))),
{
    if vals.len() != 3 {
        return fail("`mat-repmat` must have exactly 3 arguments.");
    }
    let m = &vals[0];
    let (n_rows, n_cols) = check_matrix("Argument 1 to `mat-repmat` ", m, false)?;
    let (r, c) = match (&vals[1], &vals[2]) {
        (Value::Integer(r), Value::Integer(c)) => (*r, *c),
        _ => {
            return fail("The counts given to `mat-repmat` must be integers.");
        },
    };
    if r < 0 || c < 0 {
        return fail("The counts given to `mat-repmat` must not be negative.");
    }
    let (total_rows, total_cols) = match (scaled(n_rows, r), scaled(n_cols, c)) {
        (Some(a), Some(b)) => (a, b),
        _ => {
            return fail("The result of `mat-repmat` is too large.");
        },
    };
    let mut out: Vec<Value> = Vec::new();
    let mut i: usize = 0;
    while i < total_rows
        invariant
            i <= total_rows,
            is_matrix(m@, false),
            n_rows == rows_of(m@),
            n_cols == cols_of(m@),
            out.len() == i,
            forall|ii: int|
                0 <= ii < i ==> (#[trigger] out@[ii])@ == Val::Vector(
                    Seq::new(
                        total_cols as nat,
                        |j: int| cell(m@, ii % (n_rows as int), j % (n_cols as int)),
                    ),
                ),
        decreases total_rows - i,
    {
        let source_row = i % n_rows;
        let mut row: Vec<Value> = Vec::new();
        let mut j: usize = 0;
        while j < total_cols
            invariant
                j <= total_cols,
                is_matrix(m@, false),
                n_rows == rows_of(m@),
                n_cols == cols_of(m@),
                source_row == i % n_rows,
                source_row < n_rows,
                row.len() == j,
                forall|jj: int|
                    0 <= jj < j ==> (#[trigger] row@[jj])@ == cell(
                        m@,
                        source_row as int,
                        jj % (n_cols as int),
                    ),
            decreases total_cols - j,
        {
            row.push(cell_of(m, source_row, j % n_cols).clone());
            j += 1;
        }
        proof {
            lemma_vector_view(row);
            assert(views(row@) =~= Seq::new(
                total_cols as nat,
                |j: int| cell(m@, i as int % (n_rows as int), j % (n_cols as int)),
            ));
        }
        out.push(Value::Vector(row));
        i += 1;
    }
    proof {
        lemma_vector_view(out);
        assert(views(out@) =~= repeated(m@, r as nat, c as nat)->Vector_0);
    }
    Ok(Value::Vector(out))
}

/// Whether `v` is a vector of `cols` floating-point numbers.
pub open spec fn is_float_row(v: Val, cols: nat) -> bool {
    &&& v matches Val::Vector(r)
    &&& r.len() == cols
    &&& forall|j: int| 0 <= j < cols ==> #[trigger] r[j] is Float
}

/// Whether `v` is a vector of `rows` vectors, each of `cols` floating-point
/// numbers.
pub open spec fn is_float_matrix(v: Val, rows: nat, cols: nat) -> bool {
    &&& v matches Val::Vector(rs)
    &&& rs.len() == rows
    &&& forall|i: int| 0 <= i < rows ==> is_float_row(#[trigger] rs[i], cols)
}

/// The floating-point number in row `i` and column `j` of a matrix of such
/// numbers.
pub open spec fn float_cell(v: Val, i: int, j: int) -> Float {
    cell(v, i, j)->Float_0
}

/// Whether `g` holds the numbers of the numeric matrix `m`, widened, row by
/// row.
pub open spec fn widened_grid<N: Numerics>(numerics: &N, m: Val, g: Seq<Seq<Float>>) -> bool {
    &&& g.len() == rows_of(m)
    &&& forall|i: int| 0 <= i < rows_of(m) ==> (#[trigger] g[i]).len() == cols_of(m)
    &&& forall|i: int, j: int|
        0 <= i < rows_of(m) && 0 <= j < cols_of(m) ==> widens_to(
            numerics,
            cell(m, i, j).number(),
            #[trigger] g[i][j],
        )
}

/// Whether `data` holds `rows` rows of `cols` numbers each.
pub open spec fn is_grid(data: Seq<Vec<Float>>, rows: nat, cols: nat) -> bool {
    &&& data.len() == rows
    &&& forall|i: int| 0 <= i < rows ==> (#[trigger] data[i]).len() == cols
}

/// The rows of numbers as sequences.
pub open spec fn grid(data: Seq<Vec<Float>>) -> Seq<Seq<Float>> {
    Seq::new(data.len(), |i: int| data[i]@)
}

/// The numbers of a numeric matrix as floating-point numbers, row by row.
pub(crate) fn to_floats<N: Numerics>(numerics: &N, m: &Value) -> (r: Vec<Vec<Float>>)
    requires
        is_matrix(m@, true),
    ensures
        is_grid(r@, rows_of(m@), cols_of(m@)),
        widened_grid(numerics, m@, grid(r@)),
{
    let ghost n_rows = rows_of(m@);
    let ghost n_cols = cols_of(m@);
    let mut out: Vec<Vec<Float>> = Vec::new();
    match m {
        Value::Vector(rows) => {
            proof {
                lemma_vector_view(*rows);
            }
            let mut i: usize = 0;
            while i < rows.len()
                invariant
                    i <= rows.len(),
                    m@ == Val::Vector(views(rows@)),
                    is_matrix(m@, true),
                    n_rows == rows_of(m@),
                    n_cols == cols_of(m@),
                    out.len() == i,
                    forall|k: int| 0 <= k < i ==> (#[trigger] out@[k]).len() == n_cols,
                    forall|k: int, j: int|
                        0 <= k < i && 0 <= j < n_cols ==> widens_to(
                            numerics,
                            cell(m@, k, j).number(),
                            #[trigger] out@[k]@[j],
                        ),
                decreases rows.len() - i,
            {
                assert(all_numeric(views(rows@)[i as int]->Vector_0));
                let mut line: Vec<Float> = Vec::new();
                match &rows[i] {
                    Value::Vector(row) => {
                        proof {
                            lemma_vector_view(*row);
                        }
                        let mut j: usize = 0;
                        while j < row.len()
                            invariant
                                j <= row.len(),
                                row.len() == n_cols,
                                all_numeric(views(row@)),
                                line.len() == j,
                                forall|k: int|
                                    0 <= k < j ==> widens_to(
                                        numerics,
                                        views(row@)[k].number(),
                                        #[trigger] line@[k],
                                    ),
                            decreases row.len() - j,
                        {
                            assert(views(row@)[j as int] == row@[j as int]@);
                            line.push(widen(numerics, number_of(&row[j])));
                            j += 1;
                        }
                    },
                    _ => {},
                }
                out.push(line);
                i += 1;
            }
        },
        _ => {},
    }
    out
}

/// The matrix of the given floating-point numbers.
pub(crate) fn float_matrix(data: Vec<Vec<Float>>, Ghost(rows): Ghost<nat>, Ghost(cols): Ghost<nat>) -> (r: Value)
    requires
        is_grid(data@, rows, cols),
    ensures
        is_float_matrix(r@, rows, cols),
        forall|i: int, j: int|
            0 <= i < rows && 0 <= j < cols ==> #[trigger] float_cell(r@, i, j) == data@[i]@[j],
{
    let mut out: Vec<Value> = Vec::new();
    let mut i: usize = 0;
    while i < data.len()
        invariant
            i <= data.len(),
            is_grid(data@, rows, cols),
            out.len() == i,
            forall|k: int| 0 <= k < i ==> is_float_row((#[trigger] out@[k])@, cols),
            forall|k: int, j: int|
                0 <= k < i && 0 <= j < cols ==> (#[trigger] out@[k]@->Vector_0[j])
                    == Val::Float(data@[k]@[j]),
        decreases data.len() - i,
    {
        let line = &data[i];
        let mut row: Vec<Value> = Vec::new();
        let mut j: usize = 0;
        while j < line.len()
            invariant
                j <= line.len(),
                row.len() == j,
                forall|k: int| 0 <= k < j ==> (#[trigger] row@[k])@ == Val::Float(line@[k]),
            decreases line.len() - j,
        {
            row.push(Value::Float(line[j]));
            j += 1;
        }
        out.push(Value::Vector(row));
        i += 1;
    }
    Value::Vector(out)
}

/// Column `j` of the grid.
pub open spec fn column(g: Seq<Seq<Float>>, j: int) -> Seq<Float> {
    Seq::new(g.len(), |k: int| g[k][j])
}

/// Whether `partial` holds the running sums of the products of the numbers
/// of `row` with those of `col` under the numerics: zero first, and behind
/// each sum the next, which is the sum before with the next product, `ps`,
/// added.
pub open spec fn is_running_dot<N: Numerics>(
    numerics: &N,
    row: Seq<Float>,
    col: Seq<Float>,
    ps: Seq<Float>,
    partial: Seq<Float>,
) -> bool {
    &&& col.len() == row.len()
    &&& ps.len() == row.len()
    &&& partial.len() == row.len() + 1
    &&& partial[0] == Float::spec_zero()
    &&& forall|k: int| 0 <= k < row.len() ==> multiplies(numerics, row[k], col[k], #[trigger] ps[k])
    &&& forall|k: int|
        0 <= k < row.len() ==> adds(numerics, #[trigger] partial[k], ps[k], partial[k + 1])
}

/// Whether `r` is, under the numerics, the sum of the products of the
/// numbers of `row` with those of `col`, added from left to right to zero.
pub open spec fn dots_to<N: Numerics>(numerics: &N, row: Seq<Float>, col: Seq<Float>, r: Float) -> bool {
    exists|ps: Seq<Float>, partial: Seq<Float>|
        #![trigger is_running_dot(numerics, row, col, ps, partial)]
        is_running_dot(numerics, row, col, ps, partial) && r == partial[row.len() as int]
}

/// Whether `v` is the product of the numeric matrices `a` and `b` under the
/// numerics: a matrix of floating-point numbers with the rows of `a` and the
/// columns of `b`, each number the sum of the products of a row of `a` with
/// a column of `b`.
pub open spec fn is_matrix_product<N: Numerics>(numerics: &N, a: Val, b: Val, v: Val) -> bool {
    &&& is_float_matrix(v, rows_of(a), cols_of(b))
    &&& exists|ga: Seq<Seq<Float>>, gb: Seq<Seq<Float>>|
        #![trigger widened_grid(numerics, a, ga), widened_grid(numerics, b, gb)]
        widened_grid(numerics, a, ga) && widened_grid(numerics, b, gb) && forall|i: int, j: int|
            0 <= i < rows_of(a) && 0 <= j < cols_of(b) ==> dots_to(
                numerics,
                ga[i],
                column(gb, j),
                #[trigger] float_cell(v, i, j),
            )
}

/// `mat-mul`: two numeric matrices, the first with as many columns as the
/// second has rows; their product, a matrix of floating-point numbers with
/// the rows of the first and the columns of the second.
pub open spec fn multiply_spec(args: Seq<Val>) -> Result<Answer, Seq<char>> {
    if args.len() != 2 {
        Err("`mat-mul` must have exactly 2 arguments."@)
    } else {
        match matrix_fault("Argument 1 to `mat-mul` "@, args[0], true) {
            Some(message) => Err(message),
            None => match matrix_fault("Argument 2 to `mat-mul` "@, args[1], true) {
                Some(message) => Err(message),
                None => if cols_of(args[0]) != rows_of(args[1]) {
                    Err("`mat-mul` needs matrices with matching inner dimensions."@)
                } else {
                    Ok(Answer::Computed(Computation::MatMul(args[0], args[1])))
                },
            },
        }
    }
}

/// `mat-mul`.
pub fn matrix_multiply<N: Numerics>(numerics: &N, vals: Vec<Value>) -> (r: Result<
    Value,
    RuntimeError,
>)
    ensures
        meets(numerics, r, multiply_spec(views(vals@))),
{
    if vals.len() != 2 {
        return fail("`mat-mul` must have exactly 2 arguments.");
    }
    let (mat1_nrows, mat1_ncols) = check_matrix("Argument 1 to `mat-mul` ", &vals[0], true)?;
    let (mat2_nrows, mat2_ncols) = check_matrix("Argument 2 to `mat-mul` ", &vals[1], true)?;
    if mat1_ncols != mat2_nrows {
        return fail("`mat-mul` needs matrices with matching inner dimensions.");
    }
    let mat1 = to_floats(numerics, &vals[0]);
    let mat2 = to_floats(numerics, &vals[1]);
    let ghost ga = grid(mat1@);
    let ghost gb = grid(mat2@);
    let shared_dim = mat1_ncols;
    let mut product: Vec<Vec<Float>> = Vec::new();
    let mut i: usize = 0;
    while i < mat1_nrows
        invariant
            i <= mat1_nrows,
            is_grid(mat1@, mat1_nrows as nat, shared_dim as nat),
            is_grid(mat2@, shared_dim as nat, mat2_ncols as nat),
            ga == grid(mat1@),
            gb == grid(mat2@),
            product.len() == i,
            forall|k: int| 0 <= k < i ==> (#[trigger] product@[k]).len() == mat2_ncols,
            forall|ii: int, jj: int|
                0 <= ii < i && 0 <= jj < mat2_ncols ==> dots_to(
                    numerics,
                    ga[ii],
                    column(gb, jj),
                    #[trigger] product@[ii]@[jj],
                ),
        decreases mat1_nrows - i,
    {
        let mut row: Vec<Float> = Vec::new();
        let mut j: usize = 0;
        while j < mat2_ncols
            invariant
                j <= mat2_ncols,
                i < mat1_nrows,
                is_grid(mat1@, mat1_nrows as nat, shared_dim as nat),
                is_grid(mat2@, shared_dim as nat, mat2_ncols as nat),
                ga == grid(mat1@),
                gb == grid(mat2@),
                row.len() == j,
                forall|jj: int|
                    0 <= jj < j ==> dots_to(numerics, ga[i as int], column(gb, jj), #[trigger] row@[jj]),
            decreases mat2_ncols - j,
        {
            let ghost left = ga[i as int];
            let ghost right = column(gb, j as int);
            let ghost mut ps: Seq<Float> = Seq::empty();
            let ghost mut partial: Seq<Float> = seq![Float::spec_zero()];
            let mut sum = Float::zero();
            let mut k: usize = 0;
            while k < shared_dim
                invariant
                    k <= shared_dim,
                    i < mat1_nrows,
                    j < mat2_ncols,
                    is_grid(mat1@, mat1_nrows as nat, shared_dim as nat),
                    is_grid(mat2@, shared_dim as nat, mat2_ncols as nat),
                    ga == grid(mat1@),
                    gb == grid(mat2@),
                    left == ga[i as int],
                    right == column(gb, j as int),
                    left.len() == shared_dim,
                    right.len() == shared_dim,
                    is_running_dot(numerics, left.take(k as int), right.take(k as int), ps, partial),
                    sum == partial[k as int],
                decreases shared_dim - k,
            {
                let v1 = mat1[i][k];
                let v2 = mat2[k][j];
                let p = numerics.times(v1, v2);
                sum = numerics.plus(sum, p);
                proof {
                    ps = ps.push(p);
                    partial = partial.push(sum);
                }
                k += 1;
            }
            proof {
                assert(is_running_dot(numerics, left, right, ps, partial));
            }
            row.push(sum);
            j += 1;
        }
        product.push(row);
        i += 1;
    }
    let out = float_matrix(product, Ghost(mat1_nrows as nat), Ghost(mat2_ncols as nat));
    Ok(out)
}

/// Whether matrices of `r1` by `c1` and of `r2` by `c2` can be added: in
/// each direction the sizes agree or one of them is 1. A row of three
/// numbers and a column of three can be added, to three rows of three.
pub open spec fn compatible(r1: nat, c1: nat, r2: nat, c2: nat) -> bool {
    &&& r1 == 1 || r2 == 1 || r1 == r2
    &&& c1 == 1 || c2 == 1 || c1 == c2
}

/// The larger of two sizes.
pub open spec fn larger(a: nat, b: nat) -> nat {
    if a >= b {
        a
    } else {
        b
    }
}

/// The index in a matrix's direction of size `size` that the index `i` of
/// the sum reads: `i` itself, or 0 where the matrix is repeated along that
/// direction.
pub open spec fn broadcast_index(i: int, size: nat) -> int {
    if size > 1 {
        i
    } else {
        0
    }
}

/// Whether `v` is the sum of the numeric matrices `a` and `b` under the
/// numerics: a matrix of floating-point numbers of the larger size in each
/// direction, each number the sum of the numbers that stand at its place in
/// `a` and in `b`, where a matrix with one row or one column is repeated
/// along that direction.
pub open spec fn is_matrix_sum<N: Numerics>(numerics: &N, a: Val, b: Val, v: Val) -> bool {
    &&& is_float_matrix(v, larger(rows_of(a), rows_of(b)), larger(cols_of(a), cols_of(b)))
    &&& exists|ga: Seq<Seq<Float>>, gb: Seq<Seq<Float>>|
        #![trigger widened_grid(numerics, a, ga), widened_grid(numerics, b, gb)]
        widened_grid(numerics, a, ga) && widened_grid(numerics, b, gb) && forall|i: int, j: int|
            0 <= i < larger(rows_of(a), rows_of(b)) && 0 <= j < larger(cols_of(a), cols_of(b))
                ==> adds(
                numerics,
                ga[broadcast_index(i, rows_of(a))][broadcast_index(j, cols_of(a))],
                gb[broadcast_index(i, rows_of(b))][broadcast_index(j, cols_of(b))],
                #[trigger] float_cell(v, i, j),
            )
}

/// `mat-add`: two numeric matrices of compatible sizes; their sum, a
/// matrix of floating-point numbers of the larger size in each direction.
pub open spec fn add_spec(args: Seq<Val>) -> Result<Answer, Seq<char>> {
    if args.len() != 2 {
        Err("`mat-add` must have exactly 2 arguments."@)
    } else {
        match matrix_fault("Argument 1 to `mat-add` "@, args[0], true) {
            Some(message) => Err(message),
            None => match matrix_fault("Argument 2 to `mat-add` "@, args[1], true) {
                Some(message) => Err(message),
                None => if !compatible(
                    rows_of(args[0]),
                    cols_of(args[0]),
                    rows_of(args[1]),
                    cols_of(args[1]),
                ) {
                    Err("arguments to `mat-add` have incompatible dimensions."@)
                } else {
                    Ok(Answer::Computed(Computation::MatAdd(args[0], args[1])))
                },
            },
        }
    }
}

/// The index that [`broadcast_index`] gives.
pub(crate) fn pick(i: usize, size: usize) -> (r: usize)
    ensures
        r == broadcast_index(i as int, size as nat),
{
    if size > 1 {
        i
    } else {
        0
    }
}

/// `mat-add`.
pub fn matrix_addition<N: Numerics>(numerics: &N, vals: Vec<Value>) -> (r: Result<
    Value,
    RuntimeError,
>)
    ensures
        meets(numerics, r, add_spec(views(vals@))),
{
    if vals.len() != 2 {
        return fail("`mat-add` must have exactly 2 arguments.");
    }
    let (mat1_nrows, mat1_ncols) = check_matrix("Argument 1 to `mat-add` ", &vals[0], true)?;
    let (mat2_nrows, mat2_ncols) = check_matrix("Argument 2 to `mat-add` ", &vals[1], true)?;
    let compatible_dimensions = (mat1_nrows == 1 || mat2_nrows == 1 || mat1_nrows == mat2_nrows)
        && (mat1_ncols == 1 || mat2_ncols == 1 || mat1_ncols == mat2_ncols);
    if !compatible_dimensions {
        return fail("arguments to `mat-add` have incompatible dimensions.");
    }
    let mat1 = to_floats(numerics, &vals[0]);
    let mat2 = to_floats(numerics, &vals[1]);
    let ghost ga = grid(mat1@);
    let ghost gb = grid(mat2@);
    let n_rows = if mat1_nrows >= mat2_nrows {
        mat1_nrows
    } else {
        mat2_nrows
    };
    let n_cols = if mat1_ncols >= mat2_ncols {
        mat1_ncols
    } else {
        mat2_ncols
    };
    let mut sum_mat: Vec<Vec<Float>> = Vec::new();
    let mut i: usize = 0;
    while i < n_rows
        invariant
            i <= n_rows,
            is_grid(mat1@, mat1_nrows as nat, mat1_ncols as nat),
            is_grid(mat2@, mat2_nrows as nat, mat2_ncols as nat),
            ga == grid(mat1@),
            gb == grid(mat2@),
            compatible(mat1_nrows as nat, mat1_ncols as nat, mat2_nrows as nat, mat2_ncols as nat),
            mat1_nrows > 0 && mat1_ncols > 0 && mat2_nrows > 0 && mat2_ncols > 0,
            n_rows == larger(mat1_nrows as nat, mat2_nrows as nat),
            n_cols == larger(mat1_ncols as nat, mat2_ncols as nat),
            sum_mat.len() == i,
            forall|k: int| 0 <= k < i ==> (#[trigger] sum_mat@[k]).len() == n_cols,
            forall|ii: int, jj: int|
                0 <= ii < i && 0 <= jj < n_cols ==> adds(
                    numerics,
                    ga[broadcast_index(ii, mat1_nrows as nat)][broadcast_index(
                        jj,
                        mat1_ncols as nat,
                    )],
                    gb[broadcast_index(ii, mat2_nrows as nat)][broadcast_index(
                        jj,
                        mat2_ncols as nat,
                    )],
                    #[trigger] sum_mat@[ii]@[jj],
                ),
        decreases n_rows - i,
    {
        let m1i = pick(i, mat1_nrows);
        let m2i = pick(i, mat2_nrows);
        let mut row: Vec<Float> = Vec::new();
        let mut j: usize = 0;
        while j < n_cols
            invariant
                j <= n_cols,
                m1i < mat1_nrows,
                m2i < mat2_nrows,
                m1i == broadcast_index(i as int, mat1_nrows as nat),
                m2i == broadcast_index(i as int, mat2_nrows as nat),
                is_grid(mat1@, mat1_nrows as nat, mat1_ncols as nat),
                is_grid(mat2@, mat2_nrows as nat, mat2_ncols as nat),
                ga == grid(mat1@),
                gb == grid(mat2@),
                compatible(
                    mat1_nrows as nat,
                    mat1_ncols as nat,
                    mat2_nrows as nat,
                    mat2_ncols as nat,
                ),
                mat1_nrows > 0 && mat1_ncols > 0 && mat2_nrows > 0 && mat2_ncols > 0,
                n_cols == larger(mat1_ncols as nat, mat2_ncols as nat),
                row.len() == j,
                forall|jj: int|
                    0 <= jj < j ==> adds(
                        numerics,
                        ga[m1i as int][broadcast_index(jj, mat1_ncols as nat)],
                        gb[m2i as int][broadcast_index(jj, mat2_ncols as nat)],
                        #[trigger] row@[jj],
                    ),
            decreases n_cols - j,
        {
            let m1j = pick(j, mat1_ncols);
            let m2j = pick(j, mat2_ncols);
            row.push(numerics.plus(mat1[m1i][m1j], mat2[m2i][m2j]));
            j += 1;
        }
        sum_mat.push(row);
        i += 1;
    }
    let out = float_matrix(sum_mat, Ghost(n_rows as nat), Ghost(n_cols as nat));
    Ok(out)
}

/// Whether `v` is the matrix of the hyperbolic tangents of the numbers of
/// the numeric matrix `a` under the numerics.
pub open spec fn is_matrix_tanh<N: Numerics>(numerics: &N, a: Val, v: Val) -> bool {
    &&& is_float_matrix(v, rows_of(a), cols_of(a))
    &&& exists|ga: Seq<Seq<Float>>|
        #![trigger widened_grid(numerics, a, ga)]
        widened_grid(numerics, a, ga) && forall|i: int, j: int|
            0 <= i < rows_of(a) && 0 <= j < cols_of(a) ==> is_tanh(
                numerics,
                ga[i][j],
                #[trigger] float_cell(v, i, j),
            )
}

/// `mat-tanh`: a numeric matrix; the matrix of the hyperbolic tangents of
/// its numbers.
pub open spec fn tanh_spec(args: Seq<Val>) -> Result<Answer, Seq<char>> {
    if args.len() != 1 {
        Err("`mat-tanh` must have exactly 1 argument."@)
    } else {
        match matrix_fault("The argument of `mat-tanh` "@, args[0], true) {
            Some(message) => Err(message),
            None => Ok(Answer::Computed(Computation::MatTanh(args[0]))),
        }
    }
}

/// `mat-tanh`.
pub fn matrix_tanh<N: Numerics>(numerics: &N, vals: Vec<Value>) -> (r: Result<Value, RuntimeError>)
    ensures
        meets(numerics, r, tanh_spec(views(vals@))),
{
    if vals.len() != 1 {
        return fail("`mat-tanh` must have exactly 1 argument.");
    }
    let (n_rows, n_cols) = check_matrix("The argument of `mat-tanh` ", &vals[0], true)?;
    let mat1 = to_floats(numerics, &vals[0]);
    let ghost ga = grid(mat1@);
    let mut tanh_mat: Vec<Vec<Float>> = Vec::new();
    let mut i: usize = 0;
    while i < n_rows
        invariant
            i <= n_rows,
            is_grid(mat1@, n_rows as nat, n_cols as nat),
            ga == grid(mat1@),
            tanh_mat.len() == i,
            forall|k: int| 0 <= k < i ==> (#[trigger] tanh_mat@[k]).len() == n_cols,
            forall|ii: int, jj: int|
                0 <= ii < i && 0 <= jj < n_cols ==> is_tanh(
                    numerics,
                    ga[ii][jj],
                    #[trigger] tanh_mat@[ii]@[jj],
                ),
        decreases n_rows - i,
    {
        let mut row: Vec<Float> = Vec::new();
        let mut j: usize = 0;
        while j < n_cols
            invariant
                j <= n_cols,
                i < n_rows,
                is_grid(mat1@, n_rows as nat, n_cols as nat),
                ga == grid(mat1@),
                row.len() == j,
                forall|jj: int| 0 <= jj < j ==> is_tanh(numerics, ga[i as int][jj], #[trigger] row@[jj]),
            decreases n_cols - j,
        {
            row.push(numerics.tanh(mat1[i][j]));
            j += 1;
        }
        tanh_mat.push(row);
        i += 1;
    }
    let out = float_matrix(tanh_mat, Ghost(n_rows as nat), Ghost(n_cols as nat));
    Ok(out)
}

} // verus!
