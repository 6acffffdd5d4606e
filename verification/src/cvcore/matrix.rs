use vstd::prelude::*;

use crate::cvcore::element::Element;

verus! {

/// A dense, row-major, interleaved-channel matrix.
///
/// Element `(row, col, channel)` is stored at
/// `(row * cols + col) * channels + channel`.
#[derive(Debug, Clone, PartialEq)]
pub struct Matrix<T> {
    pub rows: usize,
    pub cols: usize,
    pub channels: usize,
    pub data: Vec<T>,
}

/// Flat position of `(r, c, k)` in a matrix with `cols` columns and
/// `channels` channels.
pub open spec fn flat_index(cols: int, channels: int, r: int, c: int, k: int) -> int {
    (r * cols + c) * channels + k
}

/// `rows * cols` and `rows * cols * channels` can be computed in a `usize`.
pub open spec fn dims_fit(rows: int, cols: int, channels: int) -> bool {
    rows * cols <= usize::MAX && rows * cols * channels <= usize::MAX
}

/// Every in-range `(r, c, k)` lands inside the `rows * cols * channels`
/// elements of the matrix.
pub proof fn lemma_flat_index_bound(rows: int, cols: int, channels: int, r: int, c: int, k: int)
    requires
        0 <= r < rows,
        0 <= c < cols,
        0 <= k < channels,
    ensures
        0 <= flat_index(cols, channels, r, c, k) < rows * cols * channels,
        0 <= r * cols + c < rows * cols,
        0 <= r * cols <= r * cols + c,
        0 <= (r * cols + c) * channels <= flat_index(cols, channels, r, c, k),
{
    assert(0 <= r * cols + c < rows * cols) by (nonlinear_arith)
        requires
            0 <= r < rows,
            0 <= c < cols,
    ;
    assert(0 <= r * cols) by (nonlinear_arith)
        requires
            0 <= r,
            0 <= c < cols,
    ;
    let p = r * cols + c;
    let q = rows * cols;
    assert(0 <= p * channels) by (nonlinear_arith)
        requires
            0 <= p,
            0 <= k < channels,
    ;
    assert(0 <= p * channels + k < q * channels) by (nonlinear_arith)
        requires
            0 <= p < q,
            0 <= k < channels,
    ;
    assert(q * channels == rows * cols * channels) by (nonlinear_arith)
        requires
            q == rows * cols,
    ;
}

impl<T> Matrix<T> {
    /// Number of elements the shape calls for: `rows * cols * channels`.
    pub open spec fn spec_total(&self) -> int {
        self.rows * self.cols * self.channels
    }

    /// The data holds exactly the elements the shape calls for.
    pub open spec fn wf(&self) -> bool {
        self.data@.len() == self.spec_total()
    }

    /// The shape fits in a `usize`, so positions can be computed without
    /// overflow.
    pub open spec fn fits(&self) -> bool {
        dims_fit(self.rows as int, self.cols as int, self.channels as int)
    }

    /// `rows`, `cols` and `channels` agree with those of `other`.
    pub open spec fn same_shape<U>(&self, other: &Matrix<U>) -> bool {
        self.rows == other.rows && self.cols == other.cols && self.channels == other.channels
    }
}

impl<T> Matrix<T> {
    /// Whether `rows`, `cols` and `channels` agree with those of `other`.
    pub fn has_same_shape<U>(&self, other: &Matrix<U>) -> (r: bool)
        ensures
            r == self.same_shape(other),
    {
        self.rows == other.rows && self.cols == other.cols && self.channels == other.channels
    }
}

impl<T: Element> Matrix<T> {
    /// A `rows` x `cols` matrix with `channels` channels, every element zero.
    pub fn new(rows: usize, cols: usize, channels: usize) -> (m: Self)
        requires
            dims_fit(rows as int, cols as int, channels as int),
        ensures
            m.rows == rows,
            m.cols == cols,
            m.channels == channels,
            m.wf(),
            forall|i: int| 0 <= i < m.data@.len() ==> (#[trigger] m.data@[i]).val() == 0,
    {
        proof {
            assert(0 <= rows * cols) by (nonlinear_arith);
            assert(0 <= rows * cols * channels) by (nonlinear_arith);
        }
        let total = rows * cols * channels;
        let mut data: Vec<T> = Vec::new();
        let mut i: usize = 0;
        while i < total
            invariant
                i <= total,
                data@.len() == i,
                forall|j: int| 0 <= j < i ==> (#[trigger] data@[j]).val() == 0,
            decreases total - i,
        {
            data.push(T::zero());
            i += 1;
        }
        Matrix { rows, cols, channels, data }
    }

    /// A matrix that takes ownership of `data`, which must hold exactly
    /// `rows * cols * channels` elements.
    pub fn from_vec(rows: usize, cols: usize, channels: usize, data: Vec<T>) -> (m: Self)
        requires
            data@.len() == rows * cols * channels,
        ensures
            m.rows == rows,
            m.cols == cols,
            m.channels == channels,
            m.data@ == data@,
            m.wf(),
    {
        Matrix { rows, cols, channels, data }
    }

    /// Number of stored elements.
    pub fn total(&self) -> (n: usize)
        ensures
            n == self.data@.len(),
    {
        self.data.len()
    }

    /// The element at `(row, col, channel)`, or `None` when the position is
    /// outside the shape or the data.
    pub fn at(&self, row: i32, col: i32, channel: usize) -> (r: Option<&T>)
        requires
            self.fits(),
        ensures
            r is Some <==> (0 <= row < self.rows && 0 <= col < self.cols && channel
                < self.channels && flat_index(
                self.cols as int,
                self.channels as int,
                row as int,
                col as int,
                channel as int,
            ) < self.data@.len()),
            r is Some ==> *r->0 == self.data@[flat_index(
                self.cols as int,
                self.channels as int,
                row as int,
                col as int,
                channel as int,
            )],
    {
        if row < 0 || col < 0 {
            return None;
        }
        let r = row as usize;
        let c = col as usize;
        if r >= self.rows || c >= self.cols || channel >= self.channels {
            return None;
        }
        proof {
            lemma_flat_index_bound(
                self.rows as int,
                self.cols as int,
                self.channels as int,
                r as int,
                c as int,
                channel as int,
            );
        }
        let idx = (r * self.cols + c) * self.channels + channel;
        if idx < self.data.len() {
            Some(&self.data[idx])
        } else {
            None
        }
    }

    /// Writes `value` at `(row, col, channel)`.
    pub fn set(&mut self, row: usize, col: usize, channel: usize, value: T)
        requires
            old(self).wf(),
            old(self).fits(),
            row < old(self).rows,
            col < old(self).cols,
            channel < old(self).channels,
        ensures
            final(self).rows == old(self).rows,
            final(self).cols == old(self).cols,
            final(self).channels == old(self).channels,
            final(self).data@ == old(self).data@.update(
                flat_index(
                    old(self).cols as int,
                    old(self).channels as int,
                    row as int,
                    col as int,
                    channel as int,
                ),
                value,
            ),
    {
        proof {
            lemma_flat_index_bound(
                self.rows as int,
                self.cols as int,
                self.channels as int,
                row as int,
                col as int,
                channel as int,
            );
        }
        let idx = (row * self.cols + col) * self.channels + channel;
        self.data[idx] = value;
    }
}

} // verus!
