//! The logic behind the Python-facing calls: listing tracks and laying out
//! frame matrices for NumPy.
use vstd::prelude::*;
use crate::backend::folder_crawler::Crawler;

verus! {

/// A crawl that found no track.
#[derive(PartialEq, Eq, Structural, Clone, Copy, Debug)]
pub enum TrackError {
    NoItemsFound,
}

/// The tracks a crawl found, or an error when it found none.
pub fn get_tracks(items: Vec<Crawler>) -> (res: Result<Vec<Crawler>, TrackError>)
    ensures
        items@.len() > 0 ==> res == Ok::<Vec<Crawler>, TrackError>(items),
        items@.len() == 0 ==> res == Err::<Vec<Crawler>, TrackError>(TrackError::NoItemsFound),
{
    if items.len() > 0 {
        Ok(items)
    } else {
        Err(TrackError::NoItemsFound)
    }
}

/// A matrix laid out row after row, as NumPy takes it.
pub struct RowMajor<T> {
    /// Number of rows: the number of frames.
    pub rows: usize,
    /// Number of columns: the length of the first frame (0 with no frame).
    pub cols: usize,
    /// All frames' values, frame after frame.
    pub data: Vec<T>,
}

/// The values of `rows`, one row after another.
pub open spec fn concat_rows<T>(rows: Seq<Vec<T>>) -> Seq<T>
    decreases rows.len(),
{
    if rows.len() == 0 {
        Seq::empty()
    } else {
        concat_rows(rows.drop_last()) + rows.last()@
    }
}

/// Lays out frames as a row-major matrix: one row per frame, as many
/// columns as the first frame has, and the frames' values concatenated.
/// Frames are not checked to be of equal length.
pub fn flatten_rows<T: Copy>(frames: &Vec<Vec<T>>) -> (res: RowMajor<T>)
    ensures
        res.rows == frames@.len(),
        res.cols == if frames@.len() > 0 {
            frames@[0]@.len()
        } else {
            0
        },
        res.data@ == concat_rows(frames@),
{
    let rows = frames.len();
    let cols = if rows > 0 {
        frames[0].len()
    } else {
        0
    };
    let mut data: Vec<T> = Vec::new();
    let mut i: usize = 0;
    while i < rows
        invariant
            rows == frames@.len(),
            i <= rows,
            data@ == concat_rows(frames@.subrange(0, i as int)),
        decreases rows - i,
    {
        let row = &frames[i];
        let m = row.len();
        let mut j: usize = 0;
        let ghost before = data@;
        while j < m
            invariant
                m == row@.len(),
                j <= m,
                data@ == before + row@.subrange(0, j as int),
            decreases m - j,
        {
            data.push(row[j]);
            j = j + 1;
            assert(data@ =~= before + row@.subrange(0, j as int));
        }
        proof {
            let next = frames@.subrange(0, i + 1);
            assert(next.drop_last() =~= frames@.subrange(0, i as int));
            assert(row@.subrange(0, m as int) =~= row@);
        }
        i = i + 1;
    }
    assert(frames@.subrange(0, rows as int) =~= frames@);
    RowMajor { rows, cols, data }
}


/// When every frame has as many values as the first, the flattened data
/// holds exactly `rows * cols` values, value `c` of frame `r` at index
/// `r * cols + c`: the shape that a row-major matrix of that size expects.
pub proof fn lemma_flatten_uniform_shape<T>(frames: Seq<Vec<T>>, cols: nat)
    requires
        forall|r: int| 0 <= r < frames.len() ==> (#[trigger] frames[r])@.len() == cols,
    ensures
        concat_rows(frames).len() == frames.len() * cols,
        forall|r: int, c: int|
            0 <= r < frames.len() && 0 <= c < cols ==> concat_rows(frames)[r * cols + c]
                == #[trigger] frames[r]@[c],
    decreases frames.len(),
{
    if frames.len() > 0 {
        let init = frames.drop_last();
        assert forall|r: int| 0 <= r < init.len() implies (#[trigger] init[r])@.len() == cols by {
            assert(init[r] == frames[r]);
        }
        lemma_flatten_uniform_shape(init, cols);
        let n = frames.len() - 1;
        assert(n * cols + cols == frames.len() * cols) by (nonlinear_arith)
            requires
                n == frames.len() - 1,
        ;
        assert forall|r: int, c: int| 0 <= r < frames.len() && 0 <= c < cols implies concat_rows(
            frames,
        )[r * cols + c] == #[trigger] frames[r]@[c] by {
            if r < n {
                assert(r * cols + c < n * cols) by (nonlinear_arith)
                    requires
                        r < n,
                        c < cols,
                        0 <= c,
                ;
                assert(init[r] == frames[r]);
            } else {
                assert(r * cols == n * cols);
            }
        }
    }
}

} // verus!
